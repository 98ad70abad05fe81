//! Character and string utilities shared by the lexer and the table codec:
//! character classes, decimal rendering and parsing of integers, whitespace
//! trimming, and separator-based splitting and joining of character
//! sequences.

use vstd::prelude::*;

verus! {

// ---------------------------------------------------------------------------
// Character classes
// ---------------------------------------------------------------------------

/// Whitespace that may surround a value inside a line of a table file.
pub open spec fn is_ws_char(c: char) -> bool {
    c == ' ' || c == '\t'
}

pub open spec fn is_digit_char(c: char) -> bool {
    48 <= c as u32 && c as u32 <= 57
}

pub open spec fn is_alpha_char(c: char) -> bool {
    (65 <= c as u32 && c as u32 <= 90) || (97 <= c as u32 && c as u32 <= 122)
}

/// ASCII letters, digits and the underscore form identifier words.
pub open spec fn is_word_char(c: char) -> bool {
    is_digit_char(c) || is_alpha_char(c) || c == '_'
}

pub open spec fn digit_val(c: char) -> int {
    c as u32 - 48
}

/// The decimal digit character for a value in 0..=9.
pub open spec fn digit_char(d: int) -> char {
    if d == 0 { '0' }
    else if d == 1 { '1' }
    else if d == 2 { '2' }
    else if d == 3 { '3' }
    else if d == 4 { '4' }
    else if d == 5 { '5' }
    else if d == 6 { '6' }
    else if d == 7 { '7' }
    else if d == 8 { '8' }
    else { '9' }
}

pub open spec fn all_digits(s: Seq<char>) -> bool {
    forall|i: int| 0 <= i < s.len() ==> is_digit_char(#[trigger] s[i])
}

pub fn char_is_ws(c: char) -> (r: bool)
    ensures
        r == is_ws_char(c),
{
    c == ' ' || c == '\t'
}

pub fn char_is_digit(c: char) -> (r: bool)
    ensures
        r == is_digit_char(c),
{
    let u = c as u32;
    48 <= u && u <= 57
}

pub fn char_is_word(c: char) -> (r: bool)
    ensures
        r == is_word_char(c),
{
    let u = c as u32;
    (48 <= u && u <= 57) || (65 <= u && u <= 90) || (97 <= u && u <= 122) || c == '_'
}

// ---------------------------------------------------------------------------
// Decimal rendering and parsing of integers
// ---------------------------------------------------------------------------

/// The decimal digit sequence of a nonnegative integer, most significant
/// digit first and without leading zeros (`0` renders as "0").
pub open spec fn nat_digits(n: int) -> Seq<char>
    decreases n,
{
    if n < 10 {
        seq![digit_char(n)]
    } else {
        nat_digits(n / 10).push(digit_char(n % 10))
    }
}

/// The decimal rendering of an integer: a minus sign for negative values,
/// then the digits of its magnitude.
pub open spec fn int_chars(i: int) -> Seq<char> {
    if i < 0 {
        seq!['-'] + nat_digits(-i)
    } else {
        nat_digits(i)
    }
}

/// The value of a digit sequence read in base 10.
pub open spec fn digits_val(s: Seq<char>) -> int
    decreases s.len(),
{
    if s.len() == 0 {
        0
    } else {
        digits_val(s.drop_last()) * 10 + digit_val(s.last())
    }
}

/// The integer denoted by a character sequence: an optional minus sign
/// followed by at least one digit, and nothing else.
pub open spec fn parse_int_val(s: Seq<char>) -> Option<int> {
    if s.len() >= 2 && s[0] == '-' && all_digits(s.skip(1)) {
        Some(-digits_val(s.skip(1)))
    } else if s.len() >= 1 && all_digits(s) {
        Some(digits_val(s))
    } else {
        None
    }
}

/// `parse_int_val` restricted to values representable as an `i32`.
pub open spec fn parse_i32_val(s: Seq<char>) -> Option<i32> {
    match parse_int_val(s) {
        Some(v) => if -2147483648 <= v && v <= 2147483647 {
            Some(v as i32)
        } else {
            None
        },
        None => None,
    }
}

pub proof fn lemma_nat_digits_shape(n: int)
    requires
        n >= 0,
    ensures
        nat_digits(n).len() >= 1,
        all_digits(nat_digits(n)),
    decreases n,
{
    if n >= 10 {
        lemma_nat_digits_shape(n / 10);
        assert forall|i: int| 0 <= i < nat_digits(n).len() implies is_digit_char(
            #[trigger] nat_digits(n)[i],
        ) by {
            if i < nat_digits(n / 10).len() {
                assert(nat_digits(n)[i] == nat_digits(n / 10)[i]);
            }
        }
    }
}

pub proof fn lemma_digits_val_nonneg(s: Seq<char>)
    requires
        all_digits(s),
    ensures
        digits_val(s) >= 0,
    decreases s.len(),
{
    if s.len() > 0 {
        assert(all_digits(s.drop_last()));
        lemma_digits_val_nonneg(s.drop_last());
    }
}

pub proof fn lemma_nat_digits_val(n: int)
    requires
        n >= 0,
    ensures
        digits_val(nat_digits(n)) == n,
    decreases n,
{
    if n < 10 {
        assert(nat_digits(n) == seq![digit_char(n)]);
        assert(nat_digits(n).drop_last() =~= Seq::<char>::empty());
        assert(digits_val(Seq::<char>::empty()) == 0);
        assert(nat_digits(n).last() == digit_char(n));
        assert(digit_val(digit_char(n)) == n);
    } else {
        lemma_nat_digits_val(n / 10);
        assert(nat_digits(n).drop_last() =~= nat_digits(n / 10));
        assert(nat_digits(n).last() == digit_char(n % 10));
        assert(digits_val(nat_digits(n)) == n / 10 * 10 + n % 10);
        assert(n / 10 * 10 + n % 10 == n) by {
            vstd::arithmetic::div_mod::lemma_fundamental_div_mod(n, 10);
        }
    }
}

/// Every character of a rendered integer is a digit or a leading minus sign.
pub proof fn lemma_int_chars_shape(v: int)
    ensures
        int_chars(v).len() >= 1,
        is_digit_char(int_chars(v)[0]) || int_chars(v)[0] == '-',
        forall|i: int| 1 <= i < int_chars(v).len() ==> is_digit_char(#[trigger] int_chars(v)[i]),
{
    if v < 0 {
        lemma_nat_digits_shape(-v);
        assert forall|i: int| 1 <= i < int_chars(v).len() implies is_digit_char(
            #[trigger] int_chars(v)[i],
        ) by {
            assert(int_chars(v)[i] == nat_digits(-v)[i - 1]);
        }
    } else {
        lemma_nat_digits_shape(v);
    }
}

/// Parsing the decimal rendering of an `i32` gives the value back.
pub proof fn lemma_int_chars_round_trip(v: i32)
    ensures
        parse_i32_val(int_chars(v as int)) == Some(v),
{
    if v < 0 {
        let m = -(v as int);
        lemma_nat_digits_shape(m);
        let s = int_chars(v as int);
        assert(s[0] == '-');
        assert(s.skip(1) =~= nat_digits(m));
        lemma_nat_digits_val(m);
        assert(parse_int_val(s) == Some(-m));
    } else {
        let s = int_chars(v as int);
        lemma_nat_digits_shape(v as int);
        assert(s[0] != '-') by {
            assert(is_digit_char(s[0]));
        }
        lemma_nat_digits_val(v as int);
        assert(parse_int_val(s) == Some(v as int));
    }
}

/// A digit sequence is worth at least as much as any of its prefixes.
pub proof fn lemma_digits_val_take_bound(s: Seq<char>, j: int)
    requires
        all_digits(s),
        0 <= j <= s.len(),
    ensures
        digits_val(s.take(j)) <= digits_val(s),
    decreases s.len() - j,
{
    if j < s.len() {
        lemma_digits_val_take_bound(s, j + 1);
        assert(s.take(j + 1).drop_last() =~= s.take(j));
        assert(s.take(j + 1).last() == s[j]);
        assert(all_digits(s.take(j)));
        lemma_digits_val_nonneg(s.take(j));
        assert(digits_val(s.take(j + 1)) == digits_val(s.take(j)) * 10 + digit_val(s[j]));
    } else {
        assert(s.take(j) =~= s);
    }
}

/// The decimal digit character for a machine digit value.
pub fn digit_to_char(d: u32) -> (c: char)
    requires
        d < 10,
    ensures
        c == digit_char(d as int),
{
    match d {
        0 => '0',
        1 => '1',
        2 => '2',
        3 => '3',
        4 => '4',
        5 => '5',
        6 => '6',
        7 => '7',
        8 => '8',
        _ => '9',
    }
}

/// Relies on `String::push`: appends the given character to the end of the
/// string.
#[verifier::external_body]
pub fn push_char(s: &mut String, c: char)
    ensures
        final(s)@ == old(s)@.push(c),
{
    s.push(c);
}

/// Builds a `String` from a slice of characters.
pub fn chars_to_string(v: &[char]) -> (s: String)
    ensures
        s@ == v@,
{
    let mut s = String::new();
    let mut i: usize = 0;
    while i < v.len()
        invariant
            i <= v.len(),
            s@ == v@.take(i as int),
        decreases v.len() - i,
    {
        push_char(&mut s, v[i]);
        assert(v@.take(i + 1) =~= v@.take(i as int).push(v@[i as int]));
        i = i + 1;
    }
    assert(v@.take(v.len() as int) =~= v@);
    s
}

/// Collects the characters of a string slice into a vector.
pub fn str_to_chars(s: &str) -> (v: Vec<char>)
    ensures
        v@ == s@,
{
    let n = s.unicode_len();
    let mut v: Vec<char> = Vec::new();
    let mut i: usize = 0;
    while i < n
        invariant
            i <= n,
            n == s@.len(),
            v@ == s@.take(i as int),
        decreases n - i,
    {
        let c = s.get_char(i);
        v.push(c);
        assert(s@.take(i + 1) =~= s@.take(i as int).push(s@[i as int]));
        i = i + 1;
    }
    assert(s@.take(n as int) =~= s@);
    v
}

/// Renders an `i32` in decimal.
pub fn i32_to_string(v: i32) -> (s: String)
    ensures
        s@ == int_chars(v as int),
{
    let neg = v < 0;
    let mut n: u64 = if neg {
        (-(v as i64)) as u64
    } else {
        v as u64
    };
    let ghost n0 = n as int;
    let mut rev: Vec<char> = Vec::new();
    while n >= 10
        invariant
            nat_digits(n0) =~= nat_digits(n as int) + rev@.reverse(),
            n >= 0,
        decreases n,
    {
        let d = digit_to_char((n % 10) as u32);
        proof {
            assert(nat_digits(n as int) == nat_digits(n as int / 10).push(
                digit_char(n as int % 10),
            ));
            assert(rev@.push(d).reverse() =~= seq![d] + rev@.reverse());
            assert(nat_digits(n as int / 10) + rev@.push(d).reverse() =~= nat_digits(n as int)
                + rev@.reverse());
        }
        rev.push(d);
        n = n / 10;
    }
    let d = digit_to_char(n as u32);
    proof {
        assert(nat_digits(n as int) == seq![digit_char(n as int)]);
        assert(rev@.push(d).reverse() =~= seq![d] + rev@.reverse());
        assert(rev@.push(d).reverse() =~= nat_digits(n0));
    }
    rev.push(d);
    let mut out = String::new();
    if neg {
        push_char(&mut out, '-');
    }
    let ghost prefix: Seq<char> = if neg { seq!['-'] } else { Seq::empty() };
    assert(out@ =~= prefix);
    let mut i: usize = rev.len();
    while i > 0
        invariant
            i <= rev.len(),
            rev@.reverse() == nat_digits(n0),
            out@ == prefix + rev@.skip(i as int).reverse(),
        decreases i,
    {
        i = i - 1;
        push_char(&mut out, rev[i]);
        proof {
            assert(rev@.skip(i as int) =~= seq![rev@[i as int]] + rev@.skip(i + 1));
            assert(rev@.skip(i as int).reverse() =~= rev@.skip(i + 1).reverse().push(
                rev@[i as int],
            ));
        }
    }
    proof {
        assert(rev@.skip(0) =~= rev@);
        assert(out@ =~= prefix + nat_digits(n0));
        if neg {
            assert(n0 == -(v as int));
            assert(out@ =~= int_chars(v as int));
        } else {
            assert(n0 == v as int);
            assert(prefix + nat_digits(n0) =~= nat_digits(n0));
        }
    }
    out
}

/// Parses an optional minus sign and decimal digits as an `i32`; yields
/// `None` exactly when the characters are not of that shape or the value
/// does not fit.
pub fn parse_i32_chars(v: &[char]) -> (r: Option<i32>)
    ensures
        r == parse_i32_val(v@),
{
    let n = v.len();
    if n == 0 {
        return None;
    }
    let neg = v[0] == '-';
    let start: usize = if neg { 1 } else { 0 };
    if start == n {
        // a lone minus sign
        assert(parse_int_val(v@) is None) by {
            assert(!is_digit_char(v@[0]));
        }
        return None;
    }
    let mut acc: u64 = 0;
    let mut i: usize = start;
    while i < n
        invariant
            start <= i <= n,
            start == 0 || start == 1,
            n == v@.len(),
            start == 1 ==> v@[0] == '-',
            start == 0 ==> v@[0] != '-',
            neg == (start == 1),
            start < n,
            all_digits(v@.subrange(start as int, i as int)),
            acc == digits_val(v@.subrange(start as int, i as int)),
            acc <= 2147483648,
        decreases n - i,
    {
        let c = v[i];
        if !char_is_digit(c) {
            proof {
                assert(v@.skip(start as int)[i - start] == v@[i as int]);
                assert(!all_digits(v@.skip(start as int)));
                assert(v@.skip(0) =~= v@);
                if start == 1 {
                    assert(v@.skip(1) == v@.skip(start as int));
                    assert(!is_digit_char(v@[0]));
                    assert(!all_digits(v@));
                } else {
                    assert(v@.skip(0) == v@.skip(start as int));
                    assert(!all_digits(v@));
                }
                assert(parse_int_val(v@) is None);
            }
            return None;
        }
        let d = (c as u32 - 48) as u64;
        proof {
            assert(v@.subrange(start as int, i + 1).drop_last() =~= v@.subrange(
                start as int,
                i as int,
            ));
            assert(v@.subrange(start as int, i + 1).last() == v@[i as int]);
        }
        acc = acc * 10 + d;
        assert(acc == digits_val(v@.subrange(start as int, i + 1)));
        i = i + 1;
        if acc > 2147483648 {
            // the magnitude already exceeds any i32; more digits only grow it
            proof {
                assert(v@.skip(0) =~= v@);
                if all_digits(v@.skip(start as int)) {
                    lemma_digits_val_take_bound(v@.skip(start as int), i - start);
                    assert(v@.skip(start as int).take(i - start) =~= v@.subrange(
                        start as int,
                        i as int,
                    ));
                    assert(digits_val(v@.skip(start as int)) >= acc);
                    if start == 1 {
                        assert(v@.skip(1) == v@.skip(start as int));
                        assert(parse_int_val(v@) == Some(-digits_val(v@.skip(1))));
                    } else {
                        assert(v@.skip(0) == v@.skip(start as int));
                        assert(parse_int_val(v@) == Some(digits_val(v@)));
                    }
                    assert(parse_i32_val(v@) is None);
                } else {
                    if start == 1 {
                        assert(v@.skip(1) == v@.skip(start as int));
                        assert(!is_digit_char(v@[0]));
                        assert(!all_digits(v@));
                    } else {
                        assert(v@.skip(0) == v@.skip(start as int));
                        assert(!all_digits(v@));
                    }
                    assert(parse_int_val(v@) is None);
                }
            }
            return None;
        }
    }
    proof {
        assert(v@.subrange(start as int, n as int) =~= v@.skip(start as int));
        if start == 1 {
            assert(v@.skip(1) == v@.skip(start as int));
            assert(parse_int_val(v@) == Some(-digits_val(v@.skip(1))));
            lemma_digits_val_nonneg(v@.skip(1));
            assert(parse_int_val(v@) == Some(-(acc as int)));
        } else {
            assert(v@.skip(0) =~= v@);
            assert(v@.skip(0) == v@.skip(start as int));
            assert(all_digits(v@));
            assert(parse_int_val(v@) == Some(acc as int));
        }
    }
    if neg {
        if acc == 2147483648 {
            Some(i32::MIN)
        } else {
            Some(-(acc as i32))
        }
    } else {
        if acc == 2147483648 {
            return None;
        }
        Some(acc as i32)
    }
}

/// Copies the characters of `v` between `a` and `b` into a fresh vector.
pub fn slice_range_to_vec(v: &[char], a: usize, b: usize) -> (r: Vec<char>)
    requires
        a <= b <= v@.len(),
    ensures
        r@ == v@.subrange(a as int, b as int),
{
    let mut r: Vec<char> = Vec::new();
    let mut j: usize = a;
    while j < b
        invariant
            a <= j <= b <= v@.len(),
            r@ == v@.subrange(a as int, j as int),
        decreases b - j,
    {
        r.push(v[j]);
        proof {
            assert(v@.subrange(a as int, j + 1) =~= v@.subrange(a as int, j as int).push(
                v@[j as int],
            ));
        }
        j = j + 1;
    }
    r
}

// ---------------------------------------------------------------------------
// Trimming
// ---------------------------------------------------------------------------

pub open spec fn trim_front(s: Seq<char>) -> Seq<char>
    decreases s.len(),
{
    if s.len() > 0 && is_ws_char(s[0]) {
        trim_front(s.skip(1))
    } else {
        s
    }
}

pub open spec fn trim_back(s: Seq<char>) -> Seq<char>
    decreases s.len(),
{
    if s.len() > 0 && is_ws_char(s.last()) {
        trim_back(s.drop_last())
    } else {
        s
    }
}

/// The sequence with leading and trailing whitespace removed.
pub open spec fn trim_chars(s: Seq<char>) -> Seq<char> {
    trim_back(trim_front(s))
}

/// A sequence is trim-stable when trimming does not change it.
pub open spec fn trim_stable(s: Seq<char>) -> bool {
    s.len() == 0 || (!is_ws_char(s[0]) && !is_ws_char(s.last()))
}

pub proof fn lemma_trim_stable(s: Seq<char>)
    requires
        trim_stable(s),
    ensures
        trim_chars(s) == s,
{
    assert(trim_front(s) == s);
    assert(trim_back(s) == s);
}

/// Trimming ignores one leading whitespace character.
pub proof fn lemma_trim_ws_prefix(s: Seq<char>, c: char)
    requires
        is_ws_char(c),
    ensures
        trim_chars(seq![c] + s) == trim_chars(s),
{
    assert((seq![c] + s)[0] == c);
    assert((seq![c] + s).skip(1) =~= s);
}

/// Copies a character slice with surrounding whitespace removed.
pub fn trim_slice(v: &[char]) -> (r: Vec<char>)
    ensures
        r@ == trim_chars(v@),
{
    let mut lo: usize = 0;
    proof {
        assert(v@.skip(0) =~= v@);
    }
    while lo < v.len() && char_is_ws(v[lo])
        invariant
            lo <= v.len(),
            trim_front(v@) == trim_front(v@.skip(lo as int)),
        decreases v.len() - lo,
    {
        proof {
            assert(v@.skip(lo as int)[0] == v@[lo as int]);
            assert(v@.skip(lo as int).skip(1) =~= v@.skip(lo + 1));
        }
        lo = lo + 1;
    }
    proof {
        if lo == v.len() {
            assert(v@.skip(lo as int) =~= Seq::<char>::empty());
        } else {
            assert(v@.skip(lo as int)[0] == v@[lo as int]);
        }
        assert(trim_front(v@) == v@.skip(lo as int));
    }
    let mut hi: usize = v.len();
    proof {
        assert(v@.subrange(lo as int, hi as int) =~= v@.skip(lo as int));
    }
    while hi > lo && char_is_ws(v[hi - 1])
        invariant
            lo <= hi <= v.len(),
            trim_back(v@.skip(lo as int)) == trim_back(v@.subrange(lo as int, hi as int)),
        decreases hi,
    {
        proof {
            let cur = v@.subrange(lo as int, hi as int);
            assert(cur.last() == v@[hi - 1]);
            assert(cur.drop_last() =~= v@.subrange(lo as int, hi - 1));
        }
        hi = hi - 1;
    }
    proof {
        let cur = v@.subrange(lo as int, hi as int);
        if hi > lo {
            assert(cur.last() == v@[hi - 1]);
        }
        assert(trim_back(cur) == cur);
        assert(trim_chars(v@) == v@.subrange(lo as int, hi as int));
    }
    let mut r: Vec<char> = Vec::new();
    let mut j: usize = lo;
    while j < hi
        invariant
            lo <= j <= hi <= v.len(),
            r@ == v@.subrange(lo as int, j as int),
        decreases hi - j,
    {
        r.push(v[j]);
        proof {
            assert(v@.subrange(lo as int, j + 1) =~= v@.subrange(lo as int, j as int).push(
                v@[j as int],
            ));
        }
        j = j + 1;
    }
    r
}

// ---------------------------------------------------------------------------
// Splitting and joining on a separator
// ---------------------------------------------------------------------------

/// The index of the first occurrence of `c` in `s`.
pub open spec fn find_char(s: Seq<char>, c: char) -> Option<int>
    decreases s.len(),
{
    if s.len() == 0 {
        None
    } else if s[0] == c {
        Some(0)
    } else {
        match find_char(s.skip(1), c) {
            Some(j) => Some(j + 1),
            None => None,
        }
    }
}

pub proof fn lemma_find_char_props(s: Seq<char>, c: char)
    ensures
        match find_char(s, c) {
            Some(i) => 0 <= i < s.len() && s[i] == c && forall|k: int|
                0 <= k < i ==> s[k] != c,
            None => !s.contains(c),
        },
    decreases s.len(),
{
    if s.len() > 0 && s[0] != c {
        lemma_find_char_props(s.skip(1), c);
        match find_char(s.skip(1), c) {
            Some(j) => {
                assert(s[j + 1] == s.skip(1)[j]);
                assert forall|k: int| 0 <= k < j + 1 implies s[k] != c by {
                    if k > 0 {
                        assert(s.skip(1)[k - 1] == s[k]);
                    }
                }
            },
            None => {
                assert forall|k: int| 0 <= k < s.len() implies s[k] != c by {
                    if k > 0 {
                        assert(s.skip(1)[k - 1] == s[k]);
                        if s[k] == c {
                            assert(s.skip(1).contains(c));
                        }
                    }
                }
                if s.contains(c) {
                    let k = choose|k: int| 0 <= k < s.len() && s[k] == c;
                    assert(s[k] != c);
                }
            },
        }
    }
}

/// A vector of characters views the same shallowly and deeply.
pub proof fn lemma_char_vec_deep_view(v: Vec<char>)
    ensures
        v.deep_view() == v@,
{
    assert(v.deep_view() =~= v@);
}

/// Finds the first occurrence of a character.
pub fn find_char_exec(v: &[char], c: char) -> (r: Option<usize>)
    ensures
        match r {
            Some(i) => find_char(v@, c) == Some(i as int) && i < v@.len(),
            None => find_char(v@, c) is None,
        },
{
    let mut i: usize = 0;
    while i < v.len()
        invariant
            i <= v@.len(),
            forall|k: int| 0 <= k < i ==> #[trigger] v@[k] != c,
        decreases v@.len() - i,
    {
        if v[i] == c {
            proof {
                lemma_find_char_props(v@, c);
                match find_char(v@, c) {
                    Some(j) => {
                        if j < i {
                            assert(v@[j] != c);
                        }
                        if j > i {
                            assert(v@[i as int] != c);
                        }
                    },
                    None => {
                        assert(!v@.contains(c));
                        assert(v@[i as int] != c);
                    },
                }
            }
            return Some(i);
        }
        i = i + 1;
    }
    proof {
        lemma_find_char_props(v@, c);
        if let Some(j) = find_char(v@, c) {
            assert(v@[j] != c);
        }
    }
    None
}

/// Compares two character vectors for equality of their contents.
pub fn chars_eq(a: &Vec<char>, b: &Vec<char>) -> (r: bool)
    ensures
        r == (a@ == b@),
{
    if a.len() != b.len() {
        proof {
            assert(a@ != b@);
        }
        return false;
    }
    let mut i: usize = 0;
    while i < a.len()
        invariant
            i <= a.len(),
            a.len() == b.len(),
            forall|k: int| 0 <= k < i ==> a@[k] == b@[k],
        decreases a.len() - i,
    {
        if a[i] != b[i] {
            return false;
        }
        i = i + 1;
    }
    proof {
        assert(a@ =~= b@);
    }
    true
}

/// The pieces of `s` between occurrences of the separator `c`, in order.
/// A sequence without the separator is one piece; each separator starts a
/// new piece.
pub open spec fn split_on(s: Seq<char>, c: char) -> Seq<Seq<char>>
    decreases s.len(),
    via split_on_decreases
{
    match find_char(s, c) {
        Some(i) => seq![s.take(i)] + split_on(s.skip(i + 1), c),
        None => seq![s],
    }
}

#[via_fn]
proof fn split_on_decreases(s: Seq<char>, c: char) {
    lemma_find_char_props(s, c);
}

pub proof fn lemma_split_no_sep(s: Seq<char>, c: char)
    requires
        !s.contains(c),
    ensures
        split_on(s, c) == seq![s],
{
    lemma_find_char_props(s, c);
    if let Some(i) = find_char(s, c) {
        assert(s.contains(c));
    }
}

pub proof fn lemma_find_prefix(a: Seq<char>, b: Seq<char>, c: char)
    requires
        !a.contains(c),
    ensures
        find_char(a + seq![c] + b, c) == Some(a.len() as int),
    decreases a.len(),
{
    let s = a + seq![c] + b;
    if a.len() == 0 {
        assert(s[0] == c);
    } else {
        assert(s[0] == a[0]);
        if a[0] == c {
            assert(a.contains(c));
        }
        assert(!a.skip(1).contains(c)) by {
            if a.skip(1).contains(c) {
                let k = choose|k: int| 0 <= k < a.skip(1).len() && a.skip(1)[k] == c;
                assert(a[k + 1] == c);
                assert(a.contains(c));
            }
        }
        lemma_find_prefix(a.skip(1), b, c);
        assert(s.skip(1) =~= a.skip(1) + seq![c] + b);
    }
}

/// Splitting at the first separator of a separator-free prefix.
pub proof fn lemma_split_prefix(a: Seq<char>, b: Seq<char>, c: char)
    requires
        !a.contains(c),
    ensures
        split_on(a + seq![c] + b, c) == seq![a] + split_on(b, c),
{
    let s = a + seq![c] + b;
    lemma_find_prefix(a, b, c);
    assert(s.take(a.len() as int) =~= a);
    assert(s.skip(a.len() as int + 1) =~= b);
}

pub proof fn lemma_concat_no_char(a: Seq<char>, b: Seq<char>, c: char)
    requires
        !a.contains(c),
        !b.contains(c),
    ensures
        !(a + b).contains(c),
{
    if (a + b).contains(c) {
        let k = choose|k: int| 0 <= k < (a + b).len() && (a + b)[k] == c;
        if k < a.len() {
            assert(a[k] == c);
            assert(a.contains(c));
        } else {
            assert(b[k - a.len()] == c);
            assert(b.contains(c));
        }
    }
}

/// The concatenation of the parts with the separator between them.
pub open spec fn join_with(parts: Seq<Seq<char>>, sep: Seq<char>) -> Seq<char>
    decreases parts.len(),
{
    if parts.len() == 0 {
        Seq::empty()
    } else if parts.len() == 1 {
        parts[0]
    } else {
        parts[0] + sep + join_with(parts.skip(1), sep)
    }
}

pub proof fn lemma_join_push(parts: Seq<Seq<char>>, sep: Seq<char>, p: Seq<char>)
    ensures
        join_with(parts.push(p), sep) == if parts.len() == 0 {
            p
        } else {
            join_with(parts, sep) + sep + p
        },
    decreases parts.len(),
{
    if parts.len() == 0 {
        assert(parts.push(p)[0] == p);
        assert(join_with(parts.push(p), sep) == parts.push(p)[0]);
    } else if parts.len() == 1 {
        assert(parts.push(p)[0] == parts[0]);
        assert(parts.push(p).skip(1) =~= seq![p]);
        assert(join_with(seq![p], sep) == p);
        assert(join_with(parts.push(p), sep) == parts[0] + sep + p);
        assert(join_with(parts, sep) == parts[0]);
    } else {
        lemma_join_push(parts.skip(1), sep, p);
        assert(parts.push(p).skip(1) =~= parts.skip(1).push(p));
        assert(parts.push(p)[0] == parts[0]);
        assert(parts.skip(1).len() >= 1);
        assert(join_with(parts.push(p), sep) == parts[0] + sep + (join_with(parts.skip(1), sep)
            + sep + p));
        assert(parts[0] + sep + (join_with(parts.skip(1), sep) + sep + p) =~= (parts[0] + sep
            + join_with(parts.skip(1), sep)) + sep + p);
        assert(join_with(parts, sep) == parts[0] + sep + join_with(parts.skip(1), sep));
    }
}

pub proof fn lemma_join_no_char(parts: Seq<Seq<char>>, sep: Seq<char>, c: char)
    requires
        !sep.contains(c),
        forall|i: int| 0 <= i < parts.len() ==> !(#[trigger] parts[i]).contains(c),
    ensures
        !join_with(parts, sep).contains(c),
    decreases parts.len(),
{
    if parts.len() == 0 {
        if join_with(parts, sep).contains(c) {
            let k = choose|k: int|
                0 <= k < join_with(parts, sep).len() && join_with(parts, sep)[k] == c;
        }
    } else if parts.len() == 1 {
        assert(!parts[0].contains(c));
    } else {
        lemma_join_no_char(parts.skip(1), sep, c);
        lemma_concat_no_char(parts[0], sep, c);
        lemma_concat_no_char(parts[0] + sep, join_with(parts.skip(1), sep), c);
        assert(join_with(parts, sep) == (parts[0] + sep) + join_with(parts.skip(1), sep));
    }
}

/// Each part prefixed with one space: the shape that splitting a
/// comma-space-joined line on the comma gives back.
pub open spec fn space_prefixed(parts: Seq<Seq<char>>) -> Seq<Seq<char>> {
    parts.map(|i: int, p: Seq<char>| seq![' '] + p)
}

/// Splitting a comma-space-joined line on the comma yields the first part
/// unchanged and every later part with one leading space.
pub proof fn lemma_split_join_comma(pre: Seq<char>, parts: Seq<Seq<char>>)
    requires
        parts.len() >= 1,
        !pre.contains(','),
        forall|i: int| 0 <= i < parts.len() ==> !(#[trigger] parts[i]).contains(','),
    ensures
        split_on(pre + join_with(parts, seq![',', ' ']), ',') == seq![pre + parts[0]]
            + space_prefixed(parts.skip(1)),
    decreases parts.len(),
{
    let sep = seq![',', ' '];
    if parts.len() == 1 {
        assert(pre + join_with(parts, sep) == pre + parts[0]);
        lemma_concat_no_char(pre, parts[0], ',');
        lemma_split_no_sep(pre + parts[0], ',');
        assert(space_prefixed(parts.skip(1)) =~= Seq::<Seq<char>>::empty());
        assert(seq![pre + parts[0]] + space_prefixed(parts.skip(1)) =~= seq![pre + parts[0]]);
    } else {
        let rest = join_with(parts.skip(1), sep);
        assert(pre + join_with(parts, sep) =~= (pre + parts[0]) + seq![','] + (seq![' '] + rest));
        lemma_concat_no_char(pre, parts[0], ',');
        lemma_split_prefix(pre + parts[0], seq![' '] + rest, ',');
        assert(seq![' '] + rest =~= seq![' '] + join_with(parts.skip(1), sep));
        lemma_split_join_comma(seq![' '], parts.skip(1));
        assert(!seq![' '].contains(',')) by {
            if seq![' '].contains(',') {
                let k = choose|k: int| 0 <= k < 1 && seq![' '][k] == ',';
            }
        }
        assert(split_on(pre + join_with(parts, sep), ',') == seq![pre + parts[0]] + (seq![
            seq![' '] + parts.skip(1)[0]] + space_prefixed(parts.skip(1).skip(1))));
        assert(seq![pre + parts[0]] + (seq![seq![' '] + parts.skip(1)[0]] + space_prefixed(
            parts.skip(1).skip(1),
        )) =~= seq![pre + parts[0]] + space_prefixed(parts.skip(1))) by {
            assert(parts.skip(1).skip(1) =~= parts.skip(2));
            assert(space_prefixed(parts.skip(2)).len() == parts.len() - 2);
            assert forall|i: int| 0 <= i < parts.len() - 1 implies (seq![seq![' '] + parts.skip(
                1,
            )[0]] + space_prefixed(parts.skip(2)))[i] == space_prefixed(parts.skip(1))[i] by {
                if i > 0 {
                    assert(space_prefixed(parts.skip(2))[i - 1] == seq![' '] + parts.skip(2)[i
                        - 1]);
                    assert(space_prefixed(parts.skip(1))[i] == seq![' '] + parts.skip(1)[i]);
                    assert(parts.skip(2)[i - 1] == parts.skip(1)[i]);
                }
            }
            assert(seq![seq![' '] + parts.skip(1)[0]] + space_prefixed(parts.skip(2))
                =~= space_prefixed(parts.skip(1)));
        }
    }
}

/// Splits a character slice on a separator character.
pub fn split_slice(v: &[char], sep: char) -> (parts: Vec<Vec<char>>)
    ensures
        parts.deep_view() == split_on(v@, sep),
{
    let mut parts: Vec<Vec<char>> = Vec::new();
    let mut cur: Vec<char> = Vec::new();
    let mut start: usize = 0;
    let mut i: usize = 0;
    proof {
        assert(v@.skip(0) =~= v@);
        assert(parts.deep_view() =~= Seq::<Seq<char>>::empty());
        assert(cur@ =~= v@.subrange(0, 0));
        assert(!v@.subrange(0, 0).contains(sep)) by {
            if v@.subrange(0, 0).contains(sep) {
                let k = choose|k: int| 0 <= k < 0 && #[trigger] v@.subrange(0, 0)[k] == sep;
            }
        }
        assert(Seq::<Seq<char>>::empty() + split_on(v@, sep) =~= split_on(v@, sep));
    }
    while i < v.len()
        invariant
            start <= i <= v.len(),
            cur@ == v@.subrange(start as int, i as int),
            !v@.subrange(start as int, i as int).contains(sep),
            split_on(v@, sep) == parts.deep_view() + split_on(v@.skip(start as int), sep),
        decreases v.len() - i,
    {
        let c = v[i];
        if c == sep {
            proof {
                assert(v@.skip(start as int) =~= v@.subrange(start as int, i as int) + seq![sep]
                    + v@.skip(i + 1));
                lemma_split_prefix(v@.subrange(start as int, i as int), v@.skip(i + 1), sep);
            }
            let ghost old_parts = parts.deep_view();
            let ghost piece = cur@;
            parts.push(cur);
            proof {
                assert(parts.deep_view() =~~= old_parts.push(piece));
                assert(old_parts + (seq![piece] + split_on(v@.skip(i + 1), sep))
                    =~= old_parts.push(piece) + split_on(v@.skip(i + 1), sep));
            }
            cur = Vec::new();
            start = i + 1;
            proof {
                assert(cur@ =~= v@.subrange(start as int, start as int));
                assert(!v@.subrange(start as int, start as int).contains(sep)) by {
                    if v@.subrange(start as int, start as int).contains(sep) {
                        let k = choose|k: int|
                            0 <= k < 0 && v@.subrange(start as int, start as int)[k] == sep;
                    }
                }
            }
        } else {
            cur.push(c);
            proof {
                assert(v@.subrange(start as int, i + 1) =~= v@.subrange(start as int,
                    i as int,
                ).push(v@[i as int]));
                assert(!v@.subrange(start as int, i + 1).contains(sep)) by {
                    if v@.subrange(start as int, i + 1).contains(sep) {
                        let k = choose|k: int|
                            0 <= k < i + 1 - start && #[trigger] v@.subrange(start as int, i + 1)[k]
                                == sep;
                        if k < i - start {
                            assert(v@.subrange(start as int, i as int)[k] == sep);
                            assert(v@.subrange(start as int, i as int).contains(sep));
                        }
                    }
                }
            }
        }
        i = i + 1;
    }
    proof {
        assert(v@.subrange(start as int, v@.len() as int) =~= v@.skip(start as int));
        lemma_split_no_sep(v@.skip(start as int), sep);
    }
    let ghost old_parts = parts.deep_view();
    let ghost piece = cur@;
    parts.push(cur);
    proof {
        assert(parts.deep_view() =~~= old_parts.push(piece));
        assert(old_parts + seq![piece] =~= old_parts.push(piece));
    }
    parts
}

} // verus!
