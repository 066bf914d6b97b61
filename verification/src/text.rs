//! Text primitives: conversions between `str`/`String` and character vectors,
//! decimal rendering of integers, and small searches used across the crate.

use vstd::prelude::*;

verus! {

/// Appends one character to a `String` (std `String::push`).
#[verifier::external_body]
pub(crate) fn push_char(s: &mut String, c: char)
    ensures
        final(s)@ == old(s)@.push(c),
{
    s.push(c);
}

/// Whether two string slices hold the same characters.
pub(crate) fn str_eq(a: &str, b: &str) -> (r: bool)
    ensures
        r == (a@ == b@),
{
    let x = chars_of(a);
    let y = chars_of(b);
    if x.len() != y.len() {
        return false;
    }
    let mut i: usize = 0;
    while i < x.len()
        invariant
            i <= x@.len(),
            x@ == a@,
            y@ == b@,
            x@.len() == y@.len(),
            forall|k: int| 0 <= k < i ==> x@[k] == y@[k],
        decreases x@.len() - i,
    {
        if x[i] != y[i] {
            return false;
        }
        i += 1;
    }
    assert(x@ =~= y@);
    true
}

/// The characters of `s`, in order.
pub fn chars_of(s: &str) -> (v: Vec<char>)
    ensures
        v@ == s@,
{
    let mut v: Vec<char> = Vec::new();
    for c in it: s.chars()
        invariant
            v.len() == it.index(),
            forall|j: int| 0 <= j < v.len() ==> v@[j] == it.seq()[j],
    {
        v.push(c);
    }
    assert(v@ =~= s@);
    v
}

/// The lowercase mapping of a string as std's `str::to_lowercase` computes it
/// (Unicode `Lowercase` mapping, context-sensitive for final sigma).
pub uninterp spec fn str_lowercase(s: Seq<char>) -> Seq<char>;

/// ASCII lowercase of one character.
pub open spec fn ascii_lower_char(c: char) -> char {
    if 'A' <= c && c <= 'Z' {
        ((c as u32) + 32) as char
    } else {
        c
    }
}

/// Whether every character of `s` is ASCII.
pub open spec fn all_ascii(s: Seq<char>) -> bool {
    forall|i: int| 0 <= i < s.len() ==> (s[i] as u32) < 128
}

/// Lowercases a string slice (std `str::to_lowercase`). The result is named by
/// `str_lowercase`; for an all-ASCII input the documented behaviour is the
/// character-wise ASCII lowercase, which is stated as well.
#[verifier::external_body]
pub(crate) fn to_lowercase(s: &str) -> (r: String)
    ensures
        r@ == str_lowercase(s@),
        all_ascii(s@) ==> r@ == s@.map_values(|c: char| ascii_lower_char(c)),
{
    s.to_lowercase()
}

/// Builds a `String` from a character sequence.
pub fn string_of(cs: &Vec<char>) -> (s: String)
    ensures
        s@ == cs@,
{
    let mut s = String::new();
    let mut i: usize = 0;
    while i < cs.len()
        invariant
            i <= cs.len(),
            s@ == cs@.take(i as int),
        decreases cs.len() - i,
    {
        push_char(&mut s, cs[i]);
        i += 1;
        assert(s@ =~= cs@.take(i as int));
    }
    assert(cs@.take(cs.len() as int) =~= cs@);
    s
}

/// Whether `needle` occurs in `hay` at position `i`.
pub open spec fn occurs_at(hay: Seq<char>, needle: Seq<char>, i: int) -> bool {
    0 <= i && i + needle.len() <= hay.len() && hay.subrange(i, i + needle.len()) == needle
}

/// Whether `needle` occurs anywhere in `hay` (std `str::contains` with a
/// string pattern).
pub open spec fn contains_seq(hay: Seq<char>, needle: Seq<char>) -> bool {
    exists|i: int| occurs_at(hay, needle, i)
}

/// Whether `needle` occurs in `hay` starting at index `i`.
pub fn matches_at(hay: &Vec<char>, needle: &Vec<char>, i: usize) -> (b: bool)
    requires
        i + needle.len() <= hay.len(),
    ensures
        b == occurs_at(hay@, needle@, i as int),
{
    let mut j: usize = 0;
    while j < needle.len()
        invariant
            i + needle.len() <= hay.len(),
            j <= needle.len(),
            forall|k: int| 0 <= k < j ==> hay@[i + k] == needle@[k],
        decreases needle.len() - j,
    {
        if hay[i + j] != needle[j] {
            assert(hay@.subrange(i as int, i + needle.len())[j as int] != needle@[j as int]);
            return false;
        }
        j += 1;
    }
    assert(hay@.subrange(i as int, i + needle.len()) =~= needle@);
    true
}

/// Substring search over characters.
pub fn contains_chars(hay: &Vec<char>, needle: &Vec<char>) -> (b: bool)
    ensures
        b == contains_seq(hay@, needle@),
{
    if needle.len() > hay.len() {
        assert forall|i: int| !occurs_at(hay@, needle@, i) by {}
        return false;
    }
    let last = hay.len() - needle.len();
    for i in 0..last
        invariant
            last + needle.len() == hay.len(),
            forall|k: int| 0 <= k < i ==> !occurs_at(hay@, needle@, k),
    {
        if matches_at(hay, needle, i) {
            return true;
        }
    }
    if matches_at(hay, needle, last) {
        return true;
    }
    assert forall|k: int| !occurs_at(hay@, needle@, k) by {}
    false
}

/// Whether `s` begins with `prefix` (std `str::starts_with` with a string).
pub open spec fn has_prefix(s: Seq<char>, prefix: Seq<char>) -> bool {
    prefix.len() <= s.len() && s.subrange(0, prefix.len() as int) == prefix
}

/// Whether `s` begins with `prefix`.
pub fn starts_with_chars(s: &Vec<char>, prefix: &Vec<char>) -> (b: bool)
    ensures
        b == has_prefix(s@, prefix@),
{
    if prefix.len() > s.len() {
        return false;
    }
    let b = matches_at(s, prefix, 0);
    b
}

/// The first index of `c` in `s`, if any.
pub open spec fn first_index_of(s: Seq<char>, c: char) -> Option<int> {
    if exists|i: int| 0 <= i < s.len() && s[i] == c {
        Some(choose|i: int| 0 <= i < s.len() && s[i] == c && forall|j: int| 0 <= j < i ==> s[j] != c)
    } else {
        None
    }
}

/// The part of `s` before the first `c` (all of `s` when there is none).
pub open spec fn before_char(s: Seq<char>, c: char) -> Seq<char> {
    match first_index_of(s, c) {
        Some(i) => s.subrange(0, i),
        None => s,
    }
}

/// The part of `s` after the first `c`, when there is one.
pub open spec fn after_char(s: Seq<char>, c: char) -> Option<Seq<char>> {
    match first_index_of(s, c) {
        Some(i) => Some(s.subrange(i + 1, s.len() as int)),
        None => None,
    }
}

/// Finds the first occurrence of `c` in `v[from..]`.
pub fn find_char_from(v: &Vec<char>, c: char, from: usize) -> (r: Option<usize>)
    requires
        from <= v.len(),
    ensures
        match r {
            None => forall|j: int| from <= j < v.len() ==> v@[j] != c,
            Some(i) => from <= i < v.len() && v@[i as int] == c && forall|j: int|
                from <= j < i ==> v@[j] != c,
        },
{
    let mut i = from;
    while i < v.len()
        invariant
            from <= i <= v.len(),
            forall|j: int| from <= j < i ==> v@[j] != c,
        decreases v.len() - i,
    {
        if v[i] == c {
            return Some(i);
        }
        i += 1;
    }
    None
}

/// Finds the first occurrence of `c` in `v`.
pub fn find_char(v: &Vec<char>, c: char) -> (r: Option<usize>)
    ensures
        r matches Some(i) ==> i < v.len() && v@[i as int] == c,
        r is None ==> forall|j: int| 0 <= j < v@.len() ==> v@[j] != c,
        first_index_of(v@, c) == match r {
            Some(i) => Some(i as int),
            None => None::<int>,
        },
{
    let r = find_char_from(v, c, 0);
    match r {
        Some(i) => {
            assert(first_index_of(v@, c) == Some(i as int)) by {
                let k = choose|k: int|
                    0 <= k < v@.len() && v@[k] == c && forall|j: int| 0 <= j < k ==> v@[j] != c;
                assert(0 <= i < v@.len() && v@[i as int] == c);
                if k < i {
                } else if k > i {
                } else {
                }
            }
        },
        None => {},
    }
    r
}

/// The characters `v[from..to]`.
pub fn slice_chars(v: &Vec<char>, from: usize, to: usize) -> (r: Vec<char>)
    requires
        from <= to <= v.len(),
    ensures
        r@ == v@.subrange(from as int, to as int),
{
    let mut r: Vec<char> = Vec::new();
    let mut i = from;
    while i < to
        invariant
            from <= i <= to <= v.len(),
            r@ == v@.subrange(from as int, i as int),
        decreases to - i,
    {
        r.push(v[i]);
        i += 1;
        assert(r@ =~= v@.subrange(from as int, i as int));
    }
    r
}

/// Splits `v` at the first `c`: the part before it, and the part after it
/// when `c` occurs.
pub fn split_once_char(v: &Vec<char>, c: char) -> (r: (Vec<char>, Option<Vec<char>>))
    ensures
        r.0@ == before_char(v@, c),
        match r.1 {
            None => after_char(v@, c) is None,
            Some(rest) => after_char(v@, c) == Some(rest@),
        },
{
    match find_char(v, c) {
        Some(i) => (slice_chars(v, 0, i), Some(slice_chars(v, i + 1, v.len()))),
        None => {
            let whole = slice_chars(v, 0, v.len());
            assert(whole@ =~= v@);
            (whole, None)
        },
    }
}

/// The character of a decimal digit value.
pub open spec fn digit_char(d: int) -> char {
    (('0' as u32) + d) as char
}

/// The decimal rendering of a natural number, without leading zeros.
pub open spec fn decimal(n: nat) -> Seq<char>
    decreases n,
{
    if n < 10 {
        seq![digit_char(n as int)]
    } else {
        decimal(n / 10).push(digit_char((n % 10) as int))
    }
}

/// The decimal rendering of an integer, with a leading `-` when negative.
pub open spec fn signed_decimal(n: int) -> Seq<char> {
    if n < 0 {
        seq!['-'] + decimal((-n) as nat)
    } else {
        decimal(n as nat)
    }
}

/// Renders `n` in decimal (std `Display` for `u64`).
pub fn u64_to_decimal(n: u64) -> (s: String)
    ensures
        s@ == decimal(n as nat),
{
    let mut digits: Vec<char> = Vec::new();
    let mut q = n;
    while q >= 10
        invariant
            decimal(n as nat) == decimal(q as nat) + digits@,
        decreases q,
    {
        let d = (q % 10) as u32;
        let c = char_of_digit(d);
        digits.insert(0, c);
        let ghost old_q = q;
        q = q / 10;
        assert(decimal(old_q as nat) == decimal(q as nat).push(c));
        assert(decimal(q as nat) + seq![c] + digits@.drop_first() =~= decimal(q as nat)
            + digits@);
        assert(decimal(q as nat).push(c) =~= decimal(q as nat) + seq![c]);
    }
    let c = char_of_digit(q as u32);
    digits.insert(0, c);
    assert(digits@ =~= decimal(q as nat) + digits@.drop_first());
    string_of(&digits)
}

/// The character of a digit value.
pub fn char_of_digit(d: u32) -> (c: char)
    requires
        d < 10,
    ensures
        c == digit_char(d as int),
{
    let c = match d {
        0 => '0',
        1 => '1',
        2 => '2',
        3 => '3',
        4 => '4',
        5 => '5',
        6 => '6',
        7 => '7',
        8 => '8',
        _ => '9',
    };
    c
}

/// Renders `n` in decimal (std `Display` for `i64`).
pub fn i64_to_decimal(n: i64) -> (s: String)
    ensures
        s@ == signed_decimal(n as int),
{
    if n < 0 {
        let mag: u64 = ((-(n + 1)) as u64) + 1;
        let digits = u64_to_decimal(mag);
        let mut s = String::new();
        push_char(&mut s, '-');
        s.append(digits.as_str());
        assert(s@ =~= seq!['-'] + decimal(mag as nat));
        s
    } else {
        u64_to_decimal(n as u64)
    }
}

/// Whether `c` is an ASCII decimal digit.
pub open spec fn is_digit(c: char) -> bool {
    '0' <= c && c <= '9'
}

/// Whether `s` is a non-empty run of ASCII decimal digits.
pub open spec fn all_digits(s: Seq<char>) -> bool {
    s.len() > 0 && forall|i: int| 0 <= i < s.len() ==> is_digit(#[trigger] s[i])
}

/// The value of a run of decimal digits.
pub open spec fn digits_value(s: Seq<char>) -> nat
    decreases s.len(),
{
    if s.len() == 0 {
        0
    } else {
        digits_value(s.drop_last()) * 10 + ((s.last() as u32) - ('0' as u32)) as nat
    }
}

/// std's `FromStr` for an unsigned integer type whose largest value is `max`:
/// an optional `+`, then one or more digits whose value fits.
pub open spec fn parse_unsigned(s: Seq<char>, max: nat) -> Option<nat> {
    let body = if s.len() > 0 && s[0] == '+' {
        s.drop_first()
    } else {
        s
    };
    if all_digits(body) && digits_value(body) <= max {
        Some(digits_value(body))
    } else {
        None
    }
}

/// std's `FromStr` for a signed integer type with range `[min, max]`: an
/// optional `+` or `-`, then one or more digits whose signed value fits.
pub open spec fn parse_signed(s: Seq<char>, min: int, max: int) -> Option<int> {
    if s.len() > 0 && s[0] == '-' {
        let body = s.drop_first();
        if all_digits(body) && -(digits_value(body) as int) >= min {
            Some(-(digits_value(body) as int))
        } else {
            None
        }
    } else {
        match parse_unsigned(s, max as nat) {
            Some(v) => Some(v as int),
            None => None,
        }
    }
}

proof fn lemma_digits_value_grows(s: Seq<char>, i: int)
    requires
        0 <= i <= s.len(),
        forall|k: int| 0 <= k < s.len() ==> is_digit(#[trigger] s[k]),
    ensures
        digits_value(s.take(i)) <= digits_value(s),
    decreases s.len() - i,
{
    if i < s.len() {
        lemma_digits_value_grows(s, i + 1);
        assert(s.take(i + 1).drop_last() =~= s.take(i));
    } else {
        assert(s.take(i) =~= s);
    }
}

/// Reads the digits `v[from..]` as a number no larger than `max`.
pub fn parse_digits(v: &Vec<char>, from: usize, max: u64) -> (r: Option<u64>)
    requires
        from <= v.len(),
    ensures
        r == (if all_digits(v@.subrange(from as int, v@.len() as int)) && digits_value(
            v@.subrange(from as int, v@.len() as int),
        ) <= max {
            Some(digits_value(v@.subrange(from as int, v@.len() as int)) as u64)
        } else {
            None::<u64>
        }),
{
    let ghost body = v@.subrange(from as int, v@.len() as int);
    if from == v.len() {
        return None;
    }
    let mut acc: u64 = 0;
    let mut i = from;
    while i < v.len()
        invariant
            from <= i <= v.len(),
            body == v@.subrange(from as int, v@.len() as int),
            forall|k: int| from <= k < i ==> is_digit(#[trigger] v@[k]),
            acc == digits_value(body.take(i - from)),
            acc <= max,
        decreases v.len() - i,
    {
        let c = v[i];
        if !('0' <= c && c <= '9') {
            assert(!is_digit(body[i - from]));
            return None;
        }
        let d = (c as u32 - '0' as u32) as u64;
        assert(body.take(i - from + 1).drop_last() =~= body.take(i - from));
        if d > max || acc > (max - d) / 10 {
            proof {
                assert(forall|k: int| 0 <= k < i + 1 - from ==> is_digit(#[trigger] body.take(i + 1 - from)[k]));
                if all_digits(body) {
                    lemma_digits_value_grows(body, i + 1 - from);
                }
                assert(digits_value(body.take(i - from + 1)) == acc * 10 + d);
                if d <= max {
                    assert(acc * 10 + d > max) by (nonlinear_arith)
                        requires acc > (max - d) / 10, d <= max;
                }
            }
            return None;
        }
        assert(acc * 10 + d <= max) by (nonlinear_arith)
            requires acc <= (max - d) / 10, d <= max;
        acc = acc * 10 + d;
        i += 1;
    }
    assert(body.take(v.len() - from) =~= body);
    Some(acc)
}

/// Parses a `u32` as std's `str::parse::<u32>` does.
pub fn parse_u32(v: &Vec<char>) -> (r: Option<u32>)
    ensures
        r == match parse_unsigned(v@, u32::MAX as nat) {
            Some(x) => Some(x as u32),
            None => None::<u32>,
        },
{
    let from: usize = if v.len() > 0 && v[0] == '+' { 1 } else { 0 };
    assert(from == 1 ==> v@.drop_first() =~= v@.subrange(1, v@.len() as int));
    assert(from == 0 ==> v@ =~= v@.subrange(0, v@.len() as int));
    match parse_digits(v, from, 0xffff_ffff) {
        Some(x) => Some(x as u32),
        None => None,
    }
}

/// Parses an `i64` as std's `str::parse::<i64>` does.
pub fn parse_i64(v: &Vec<char>) -> (r: Option<i64>)
    ensures
        r == match parse_signed(v@, i64::MIN as int, i64::MAX as int) {
            Some(x) => Some(x as i64),
            None => None::<i64>,
        },
{
    if v.len() > 0 && v[0] == '-' {
        assert(v@.drop_first() =~= v@.subrange(1, v@.len() as int));
        match parse_digits(v, 1, 0x8000_0000_0000_0000) {
            Some(x) => {
                if x == 0x8000_0000_0000_0000 {
                    Some(i64::MIN)
                } else {
                    Some(-(x as i64))
                }
            },
            None => None,
        }
    } else {
        let from: usize = if v.len() > 0 && v[0] == '+' { 1 } else { 0 };
        assert(from == 1 ==> v@.drop_first() =~= v@.subrange(1, v@.len() as int));
        assert(from == 0 ==> v@ =~= v@.subrange(0, v@.len() as int));
        match parse_digits(v, from, 0x7fff_ffff_ffff_ffff) {
            Some(x) => Some(x as i64),
            None => None,
        }
    }
}

/// Lexicographic order on character sequences by code point (the order of
/// `String`'s `Ord`, since UTF-8 preserves code point order bytewise).
pub open spec fn seq_lt(a: Seq<char>, b: Seq<char>) -> bool
    decreases a.len(),
{
    if a.len() == 0 {
        b.len() > 0
    } else if b.len() == 0 {
        false
    } else if a[0] != b[0] {
        (a[0] as int) < (b[0] as int)
    } else {
        seq_lt(a.drop_first(), b.drop_first())
    }
}

pub proof fn lemma_seq_lt_irreflexive(a: Seq<char>)
    ensures
        !seq_lt(a, a),
    decreases a.len(),
{
    if a.len() > 0 {
        lemma_seq_lt_irreflexive(a.drop_first());
    }
}

pub proof fn lemma_seq_lt_transitive(a: Seq<char>, b: Seq<char>, c: Seq<char>)
    requires
        seq_lt(a, b),
        seq_lt(b, c),
    ensures
        seq_lt(a, c),
    decreases a.len(),
{
    if a.len() > 0 && b.len() > 0 && c.len() > 0 {
        if a[0] == b[0] && b[0] == c[0] {
            lemma_seq_lt_transitive(a.drop_first(), b.drop_first(), c.drop_first());
        }
    }
}

pub proof fn lemma_seq_lt_total(a: Seq<char>, b: Seq<char>)
    ensures
        a == b || seq_lt(a, b) || seq_lt(b, a),
    decreases a.len(),
{
    if a.len() > 0 && b.len() > 0 {
        if a[0] != b[0] {
            assert((a[0] as int) != (b[0] as int));
        } else {
            lemma_seq_lt_total(a.drop_first(), b.drop_first());
            assert(seq_lt(a, b) == seq_lt(a.drop_first(), b.drop_first()));
            assert(seq_lt(b, a) == seq_lt(b.drop_first(), a.drop_first()));
            if a.drop_first() == b.drop_first() {
                assert(a.drop_first().len() == b.drop_first().len());
                assert(a.len() == b.len());
                assert forall|k: int| 0 <= k < a.len() implies a[k] == b[k] by {
                    if k > 0 {
                        assert(a[k] == a.drop_first()[k - 1]);
                        assert(b[k] == b.drop_first()[k - 1]);
                    }
                }
                assert(a =~= b);
            }
        }
    } else if a.len() == 0 && b.len() == 0 {
        assert(a =~= b);
    }
}

pub proof fn lemma_seq_lt_asymmetric(a: Seq<char>, b: Seq<char>)
    requires
        seq_lt(a, b),
    ensures
        !seq_lt(b, a),
{
    if seq_lt(b, a) {
        lemma_seq_lt_transitive(a, b, a);
        lemma_seq_lt_irreflexive(a);
    }
}

/// Code point lexicographic comparison of two character vectors.
pub fn chars_lt(a: &Vec<char>, b: &Vec<char>) -> (r: bool)
    ensures
        r == seq_lt(a@, b@),
{
    let mut i: usize = 0;
    assert(a@.subrange(0, a@.len() as int) =~= a@);
    assert(b@.subrange(0, b@.len() as int) =~= b@);
    while i < a.len() && i < b.len()
        invariant
            i <= a.len(),
            i <= b.len(),
            seq_lt(a@, b@) == seq_lt(a@.subrange(i as int, a@.len() as int), b@.subrange(
                i as int,
                b@.len() as int,
            )),
        decreases a.len() - i,
    {
        if a[i] != b[i] {
            return a[i] < b[i];
        }
        assert(a@.subrange(i as int, a@.len() as int).drop_first() =~= a@.subrange(
            i + 1,
            a@.len() as int,
        ));
        assert(b@.subrange(i as int, b@.len() as int).drop_first() =~= b@.subrange(
            i + 1,
            b@.len() as int,
        ));
        i += 1;
    }
    i < b.len()
}

/// Whether a sequence of strings is strictly increasing in code point order.
pub open spec fn strictly_sorted(s: Seq<Seq<char>>) -> bool {
    forall|i: int, j: int| 0 <= i < j < s.len() ==> seq_lt(#[trigger] s[i], #[trigger] s[j])
}

/// The character views of a vector of strings.
pub open spec fn string_views(v: Seq<String>) -> Seq<Seq<char>> {
    v.map_values(|s: String| s@)
}

/// Inserts `x` into a strictly sorted vector of strings, unless present.
pub fn insert_sorted(v: &mut Vec<String>, x: String)
    requires
        strictly_sorted(string_views(old(v)@)),
    ensures
        strictly_sorted(string_views(final(v)@)),
        string_views(final(v)@).to_set() == string_views(old(v)@).to_set().insert(x@),
{
    let ghost old_views = string_views(v@);
    let xc = chars_of(x.as_str());
    let mut i: usize = 0;
    let mut found_ge = false;
    while i < v.len() && !found_ge
        invariant
            i <= v.len(),
            string_views(v@) == old_views,
            strictly_sorted(old_views),
            xc@ == x@,
            forall|k: int| 0 <= k < i ==> seq_lt(#[trigger] old_views[k], x@),
            found_ge ==> i < v.len() && !seq_lt(old_views[i as int], x@),
        decreases v.len() - i + (if found_ge { 0int } else { 1int }),
    {
        let cur = chars_of(v[i].as_str());
        assert(cur@ == old_views[i as int]);
        if !chars_lt(&cur, &xc) {
            found_ge = true;
        } else {
            i += 1;
        }
    }
    if i < v.len() {
        let cur = chars_of(v[i].as_str());
        assert(cur@ == old_views[i as int]);
        if !chars_lt(&xc, &cur) {
            proof {
                lemma_seq_lt_total(old_views[i as int], x@);
            }
            assert(old_views[i as int] == x@);
            assert(old_views.to_set().insert(x@) =~= old_views.to_set()) by {
                assert(old_views.contains(x@));
            }
            return;
        }
        proof {
            assert forall|k: int| i <= k < old_views.len() implies seq_lt(
                x@,
                #[trigger] old_views[k],
            ) by {
                if k > i {
                    lemma_seq_lt_transitive(x@, old_views[i as int], old_views[k]);
                }
            }
        }
    }
    v.insert(i, x);
    let ghost nv = string_views(v@);
    assert(nv =~= old_views.insert(i as int, x@));
    assert(strictly_sorted(nv)) by {
        assert forall|a: int, b: int| 0 <= a < b < nv.len() implies seq_lt(
            #[trigger] nv[a],
            #[trigger] nv[b],
        ) by {
            if b < i {
            } else if a < i && b == i {
            } else if a < i && b > i {
                assert(seq_lt(old_views[a], x@));
                assert(nv[b] == old_views[b - 1]);
                assert(seq_lt(x@, old_views[b - 1]));
                lemma_seq_lt_transitive(nv[a], x@, nv[b]);
            } else if a == i {
                assert(nv[b] == old_views[b - 1]);
                assert(seq_lt(x@, old_views[b - 1]));
            } else {
                assert(nv[a] == old_views[a - 1]);
                assert(nv[b] == old_views[b - 1]);
            }
        }
    }
    assert(nv.to_set() =~= old_views.to_set().insert(x@)) by {
        assert forall|e: Seq<char>| nv.to_set().contains(e) <==> old_views.to_set().insert(
            x@,
        ).contains(e) by {
            if nv.contains(e) {
                let k = choose|k: int| 0 <= k < nv.len() && nv[k] == e;
                if k < i {
                    assert(old_views[k] == e);
                } else if k > i {
                    assert(old_views[k - 1] == e);
                }
            }
            if old_views.contains(e) {
                let k = choose|k: int| 0 <= k < old_views.len() && old_views[k] == e;
                if k < i {
                    assert(nv[k] == e);
                } else {
                    assert(nv[k + 1] == e);
                }
            }
            if e == x@ {
                assert(nv[i as int] == e);
            }
        }
    }
}

/// Whether `s` begins with `prefix`.
pub fn str_starts_with(s: &str, prefix: &str) -> (b: bool)
    ensures
        b == has_prefix(s@, prefix@),
{
    let sv = chars_of(s);
    let pv = chars_of(prefix);
    starts_with_chars(&sv, &pv)
}

/// Whether `c` occurs in `s`.
pub fn str_contains_char(s: &str, c: char) -> (b: bool)
    ensures
        b == (exists|i: int| 0 <= i < s@.len() && s@[i] == c),
{
    let v = chars_of(s);
    match find_char(&v, c) {
        Some(i) => {
            assert(v@[i as int] == c);
            true
        },
        None => {
            assert(first_index_of(v@, c) is None);
            false
        },
    }
}

/// The parts joined with `sep` between consecutive parts.
pub open spec fn join(parts: Seq<Seq<char>>, sep: Seq<char>) -> Seq<char>
    decreases parts.len(),
{
    if parts.len() == 0 {
        Seq::empty()
    } else if parts.len() == 1 {
        parts[0]
    } else {
        join(parts.drop_last(), sep) + sep + parts.last()
    }
}

/// Joins strings with `sep` between consecutive parts.
pub fn join_strings(parts: &Vec<String>, sep: &str) -> (r: String)
    ensures
        r@ == join(string_views(parts@), sep@),
{
    let mut r = String::new();
    let mut j: usize = 0;
    while j < parts.len()
        invariant
            j <= parts@.len(),
            r@ == join(string_views(parts@).take(j as int), sep@),
        decreases parts@.len() - j,
    {
        if j > 0 {
            r.append(sep);
        }
        r.append(parts[j].as_str());
        proof {
            let t = string_views(parts@).take(j + 1);
            assert(t.drop_last() =~= string_views(parts@).take(j as int));
            if j == 0 {
                assert(join(string_views(parts@).take(0), sep@) =~= Seq::<char>::empty());
                assert(join(t, sep@) == t[0]);
            }
        }
        j += 1;
    }
    assert(string_views(parts@).take(parts@.len() as int) =~= string_views(parts@));
    r
}

/// The last index of `c` in `s`, if any.
pub open spec fn last_index_of(s: Seq<char>, c: char) -> Option<int> {
    if exists|i: int| 0 <= i < s.len() && s[i] == c {
        Some(
            choose|i: int|
                0 <= i < s.len() && s[i] == c && forall|j: int| i < j < s.len() ==> s[j] != c,
        )
    } else {
        None
    }
}

/// Splits `s` at its last `c` (`rsplit_once`): the parts before and after it.
pub open spec fn rsplit_once(s: Seq<char>, c: char) -> Option<(Seq<char>, Seq<char>)> {
    match last_index_of(s, c) {
        Some(i) => Some((s.subrange(0, i), s.subrange(i + 1, s.len() as int))),
        None => None,
    }
}

/// Finds the last occurrence of `c` in `v`.
pub fn rfind_char(v: &Vec<char>, c: char) -> (r: Option<usize>)
    ensures
        last_index_of(v@, c) == match r {
            Some(i) => Some(i as int),
            None => None::<int>,
        },
        r matches Some(i) ==> i < v@.len(),
{
    let mut i: usize = v.len();
    while i > 0
        invariant
            i <= v@.len(),
            forall|j: int| i <= j < v@.len() ==> v@[j] != c,
        decreases i,
    {
        if v[i - 1] == c {
            let k = i - 1;
            assert(last_index_of(v@, c) == Some(k as int)) by {
                let w = choose|w: int|
                    0 <= w < v@.len() && v@[w] == c && forall|j: int| w < j < v@.len() ==> v@[j] != c;
                assert(v@[k as int] == c);
                if w < k {
                } else if w > k {
                }
            }
            return Some(k);
        }
        i -= 1;
    }
    None
}

/// Splits a string at its last `c`.
pub fn rsplit_once_str(s: &str, c: char) -> (r: Option<(String, String)>)
    ensures
        match r {
            Some((a, b)) => rsplit_once(s@, c) == Some((a@, b@)),
            None => rsplit_once(s@, c) is None,
        },
{
    let v = chars_of(s);
    match rfind_char(&v, c) {
        Some(i) => {
            let a = string_of(&slice_chars(&v, 0, i));
            let b = string_of(&slice_chars(&v, i + 1, v.len()));
            Some((a, b))
        },
        None => None,
    }
}

/// `s` preceded by zeros up to `width` characters.
pub open spec fn zero_pad(s: Seq<char>, width: nat) -> Seq<char> {
    if s.len() >= width {
        s
    } else {
        Seq::new((width - s.len()) as nat, |i: int| '0') + s
    }
}

/// Prepends zeros to `s` up to `width` characters.
pub fn zero_pad_string(s: String, width: usize) -> (r: String)
    ensures
        r@ == zero_pad(s@, width as nat),
{
    if s.as_str().unicode_len() >= width {
        return s;
    }
    let n = width - s.as_str().unicode_len();
    let mut r = String::new();
    let mut i: usize = 0;
    while i < n
        invariant
            i <= n,
            r@ == Seq::new(i as nat, |k: int| '0'),
        decreases n - i,
    {
        push_char(&mut r, '0');
        i += 1;
        assert(r@ =~= Seq::new(i as nat, |k: int| '0'));
    }
    r.append(s.as_str());
    r
}

/// The view of an optional string.
pub open spec fn opt_string_view(o: Option<String>) -> Option<Seq<char>> {
    match o {
        Some(s) => Some(s@),
        None => None,
    }
}

/// A copy of an optional string.
pub fn clone_opt_string(o: &Option<String>) -> (r: Option<String>)
    ensures
        r == *o,
{
    match o {
        Some(s) => Some(s.clone()),
        None => None,
    }
}

/// A copy of a list of strings.
pub fn clone_strings(v: &[String]) -> (r: Vec<String>)
    ensures
        r@ == v@,
{
    let mut r: Vec<String> = Vec::new();
    let mut i: usize = 0;
    while i < v.len()
        invariant
            i <= v@.len(),
            r@ == v@.take(i as int),
        decreases v@.len() - i,
    {
        r.push(v[i].clone());
        i += 1;
        assert(r@ =~= v@.take(i as int));
    }
    assert(v@.take(v@.len() as int) =~= v@);
    r
}

/// Joining a path component onto a base path, as `PathBuf::push` does on
/// Unix: an absolute component replaces the base; otherwise a `/` is put
/// between them unless the base is empty or already ends with one.
pub open spec fn join_path(base: Seq<char>, comp: Seq<char>) -> Seq<char> {
    if comp.len() > 0 && comp[0] == '/' {
        comp
    } else if base.len() == 0 {
        comp
    } else if base.last() == '/' {
        base + comp
    } else {
        base + seq!['/'] + comp
    }
}

/// Joins a path component onto a base path.
pub fn path_join(base: &str, comp: &str) -> (r: String)
    ensures
        r@ == join_path(base@, comp@),
{
    let b = chars_of(base);
    let c = chars_of(comp);
    if c.len() > 0 && c[0] == '/' {
        return comp.to_owned();
    }
    if b.len() == 0 {
        return comp.to_owned();
    }
    let mut r = base.to_owned();
    if b[b.len() - 1] != '/' {
        push_char(&mut r, '/');
    }
    r.append(comp);
    r
}

/// `s` with every `from` replaced by `to`.
pub open spec fn replace_char(s: Seq<char>, from: char, to: char) -> Seq<char> {
    s.map_values(|c: char| if c == from { to } else { c })
}

/// Replaces every `from` in `s` with `to`.
pub fn replace_chars(s: &str, from: char, to: char) -> (r: String)
    ensures
        r@ == replace_char(s@, from, to),
{
    let v = chars_of(s);
    let mut r = String::new();
    let mut i: usize = 0;
    while i < v.len()
        invariant
            i <= v@.len(),
            v@ == s@,
            r@ == replace_char(s@.take(i as int), from, to),
        decreases v@.len() - i,
    {
        push_char(&mut r, if v[i] == from { to } else { v[i] });
        assert(replace_char(s@.take(i + 1), from, to) =~= replace_char(s@.take(i as int), from, to).push(
            if v@[i as int] == from { to } else { v@[i as int] },
        ));
        i += 1;
    }
    assert(s@.take(v@.len() as int) =~= s@);
    r
}

/// The view of an optional string slice.
pub open spec fn opt_str_view(o: Option<&str>) -> Option<Seq<char>> {
    match o {
        Some(s) => Some(s@),
        None => None,
    }
}

} // verus!
