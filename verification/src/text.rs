//! Character-level text helpers shared by the parsers and path rules.
use vstd::prelude::*;

verus! {

/// `String::push` appends the given character to the end of the string.
pub assume_specification[ String::push ](s: &mut String, c: char)
    ensures
        final(s)@ == old(s)@.push(c),
;

/// The characters of `s`, in order.
pub fn chars_of(s: &str) -> (v: Vec<char>)
    ensures
        v@ == s@,
{
    let mut v: Vec<char> = Vec::new();
    for c in it: s.chars()
        invariant
            v@ == it.seq().take(it.index() as int),
    {
        v.push(c);
    }
    v
}

/// A string holding exactly the characters of `v`.
pub fn string_of(v: &[char]) -> (s: String)
    ensures
        s@ == v@,
{
    let mut s = String::new();
    let mut i: usize = 0;
    while i < v.len()
        invariant
            i <= v.len(),
            s@ == v@.take(i as int),
        decreases v.len() - i,
    {
        s.push(v[i]);
        assert(v@.take(i as int + 1) =~= v@.take(i as int).push(v@[i as int]));
        i += 1;
    }
    assert(v@.take(v.len() as int) =~= v@);
    s
}

/// A copy of `v` as a vector.
pub fn vec_of(v: &[char]) -> (r: Vec<char>)
    ensures
        r@ == v@,
{
    let mut r: Vec<char> = Vec::new();
    let mut i: usize = 0;
    while i < v.len()
        invariant
            i <= v.len(),
            r@ == v@.take(i as int),
        decreases v.len() - i,
    {
        r.push(v[i]);
        assert(v@.take(i as int + 1) =~= v@.take(i as int).push(v@[i as int]));
        i += 1;
    }
    assert(v@.take(v.len() as int) =~= v@);
    r
}

/// The characters `v[from..to]` as a vector.
pub fn slice_vec(v: &[char], from: usize, to: usize) -> (r: Vec<char>)
    requires
        from <= to <= v@.len(),
    ensures
        r@ == v@.subrange(from as int, to as int),
{
    let mut r: Vec<char> = Vec::new();
    let mut i: usize = from;
    while i < to
        invariant
            from <= i <= to <= v@.len(),
            r@ == v@.subrange(from as int, i as int),
        decreases to - i,
    {
        r.push(v[i]);
        assert(v@.subrange(from as int, i as int + 1) =~= v@.subrange(from as int, i as int).push(
            v@[i as int],
        ));
        i += 1;
    }
    r
}

/// Whether two character sequences are equal.
pub fn chars_eq(a: &[char], b: &[char]) -> (r: bool)
    ensures
        r == (a@ == b@),
{
    if a.len() != b.len() {
        return false;
    }
    let mut i: usize = 0;
    while i < a.len()
        invariant
            a@.len() == b@.len(),
            i <= a.len(),
            forall|j: int| 0 <= j < i ==> a@[j] == b@[j],
        decreases a.len() - i,
    {
        if a[i] != b[i] {
            return false;
        }
        i += 1;
    }
    assert(a@ =~= b@);
    true
}

/// `p` is a prefix of `s`.
pub open spec fn has_prefix(s: Seq<char>, p: Seq<char>) -> bool {
    p.len() <= s.len() && s.take(p.len() as int) == p
}

/// `p` is a suffix of `s`.
pub open spec fn has_suffix(s: Seq<char>, p: Seq<char>) -> bool {
    p.len() <= s.len() && s.skip(s.len() - p.len()) == p
}

/// `p` occurs in `s` starting at position `i`.
pub open spec fn occurs_at(s: Seq<char>, p: Seq<char>, i: int) -> bool {
    0 <= i && i + p.len() <= s.len() && s.subrange(i, i + p.len()) == p
}

/// Whether `p` occurs in `s` at position `i`.
pub fn matches_at(s: &[char], p: &[char], i: usize) -> (r: bool)
    ensures
        r == occurs_at(s@, p@, i as int),
{
    if i > s.len() || p.len() > s.len() - i {
        return false;
    }
    let mut j: usize = 0;
    while j < p.len()
        invariant
            i + p@.len() <= s@.len(),
            s@.len() == s.len(),
            p@.len() == p.len(),
            j <= p.len(),
            forall|k: int| 0 <= k < j ==> s@[i + k] == p@[k],
        decreases p.len() - j,
    {
        if s[i + j] != p[j] {
            return false;
        }
        j += 1;
    }
    assert(s@.subrange(i as int, i + p@.len()) =~= p@);
    true
}

/// Whether `s` starts with `p`.
pub fn starts_with(s: &[char], p: &[char]) -> (r: bool)
    ensures
        r == has_prefix(s@, p@),
{
    let r = matches_at(s, p, 0);
    proof {
        if r {
            assert(s@.take(p@.len() as int) =~= s@.subrange(0, p@.len() as int));
        } else if p@.len() <= s@.len() {
            assert(s@.take(p@.len() as int) =~= s@.subrange(0, p@.len() as int));
        }
    }
    r
}

/// Whether `s` ends with `p`.
pub fn ends_with(s: &[char], p: &[char]) -> (r: bool)
    ensures
        r == has_suffix(s@, p@),
{
    if p.len() > s.len() {
        return false;
    }
    let r = matches_at(s, p, s.len() - p.len());
    assert(s@.skip(s@.len() - p@.len()) =~= s@.subrange(
        s@.len() - p@.len(),
        s@.len() - p@.len() + p@.len(),
    ));
    r
}

/// Whether `c` occurs in `s`.
pub fn contains_char(s: &[char], c: char) -> (r: bool)
    ensures
        r == s@.contains(c),
{
    let mut i: usize = 0;
    while i < s.len()
        invariant
            i <= s.len(),
            forall|j: int| 0 <= j < i ==> s@[j] != c,
        decreases s.len() - i,
    {
        if s[i] == c {
            assert(s@[i as int] == c);
            return true;
        }
        i += 1;
    }
    false
}

/// The ASCII lower-case form of `c`; other characters are unchanged.
pub open spec fn ascii_lower(c: char) -> char {
    if 'A' <= c && c <= 'Z' {
        ((c as u32) + 32) as char
    } else {
        c
    }
}

/// The ASCII lower-case form of `c`; other characters are unchanged.
pub fn to_ascii_lower(c: char) -> (r: char)
    ensures
        r == ascii_lower(c),
{
    if 'A' <= c && c <= 'Z' {
        let n: u8 = (c as u8) + 32;
        n as char
    } else {
        c
    }
}

/// `a` and `b` are equal when ASCII letters are compared without case.
pub open spec fn eq_ignore_ascii_case(a: Seq<char>, b: Seq<char>) -> bool {
    a.len() == b.len() && forall|i: int| 0 <= i < a.len() ==> ascii_lower(#[trigger] a[i])
        == ascii_lower(b[i])
}

/// Whether `a` and `b` are equal when ASCII letters are compared without case.
pub fn chars_eq_ignore_ascii_case(a: &[char], b: &[char]) -> (r: bool)
    ensures
        r == eq_ignore_ascii_case(a@, b@),
{
    if a.len() != b.len() {
        return false;
    }
    let mut i: usize = 0;
    while i < a.len()
        invariant
            a@.len() == b@.len(),
            i <= a.len(),
            forall|j: int| 0 <= j < i ==> ascii_lower(#[trigger] a@[j]) == ascii_lower(b@[j]),
        decreases a.len() - i,
    {
        if to_ascii_lower(a[i]) != to_ascii_lower(b[i]) {
            return false;
        }
        i += 1;
    }
    true
}


/// The Unicode `White_Space` characters, as `char::is_whitespace` defines them.
pub open spec fn whitespace() -> Seq<char> {
    seq![
        '\u{09}', '\u{0A}', '\u{0B}', '\u{0C}', '\u{0D}', '\u{20}', '\u{85}', '\u{A0}',
        '\u{1680}', '\u{2000}', '\u{2001}', '\u{2002}', '\u{2003}', '\u{2004}', '\u{2005}',
        '\u{2006}', '\u{2007}', '\u{2008}', '\u{2009}', '\u{200A}', '\u{2028}', '\u{2029}',
        '\u{202F}', '\u{205F}', '\u{3000}',
    ]
}

/// The whitespace characters as a vector.
pub fn whitespace_chars() -> (v: Vec<char>)
    ensures
        v@ == whitespace(),
{
    let v = vec![
        '\u{09}', '\u{0A}', '\u{0B}', '\u{0C}', '\u{0D}', '\u{20}', '\u{85}', '\u{A0}',
        '\u{1680}', '\u{2000}', '\u{2001}', '\u{2002}', '\u{2003}', '\u{2004}', '\u{2005}',
        '\u{2006}', '\u{2007}', '\u{2008}', '\u{2009}', '\u{200A}', '\u{2028}', '\u{2029}',
        '\u{202F}', '\u{205F}', '\u{3000}',
    ];
    assert(v@ =~= whitespace());
    v
}

/// `s` without its leading characters that belong to `set`.
pub open spec fn trim_start_in(s: Seq<char>, set: Seq<char>) -> Seq<char>
    decreases s.len(),
{
    if s.len() > 0 && set.contains(s[0]) {
        trim_start_in(s.drop_first(), set)
    } else {
        s
    }
}

/// `s` without its trailing characters that belong to `set`.
pub open spec fn trim_end_in(s: Seq<char>, set: Seq<char>) -> Seq<char>
    decreases s.len(),
{
    if s.len() > 0 && set.contains(s.last()) {
        trim_end_in(s.drop_last(), set)
    } else {
        s
    }
}

/// `s` without leading and trailing whitespace, as `str::trim` gives it.
pub open spec fn trim_ws(s: Seq<char>) -> Seq<char> {
    trim_end_in(trim_start_in(s, whitespace()), whitespace())
}

/// The number of leading characters of `s` that belong to `set`.
pub fn trim_start_count(s: &[char], set: &[char]) -> (k: usize)
    ensures
        k <= s@.len(),
        s@.skip(k as int) == trim_start_in(s@, set@),
{
    let mut i: usize = 0;
    assert(s@.skip(0) =~= s@);
    while i < s.len() && contains_char(set, s[i])
        invariant
            i <= s@.len(),
            trim_start_in(s@.skip(i as int), set@) == trim_start_in(s@, set@),
        decreases s.len() - i,
    {
        assert(s@.skip(i as int).drop_first() =~= s@.skip(i as int + 1));
        i += 1;
    }
    i
}

/// The length of `s` once its trailing characters that belong to `set` are removed.
pub fn trim_end_len(s: &[char], set: &[char]) -> (e: usize)
    ensures
        e <= s@.len(),
        s@.take(e as int) == trim_end_in(s@, set@),
{
    let mut e: usize = s.len();
    assert(s@.take(e as int) =~= s@);
    while e > 0 && contains_char(set, s[e - 1])
        invariant
            e <= s@.len(),
            trim_end_in(s@.take(e as int), set@) == trim_end_in(s@, set@),
        decreases e,
    {
        assert(s@.take(e as int).drop_last() =~= s@.take(e as int - 1));
        e -= 1;
    }
    e
}

/// `s` with both leading and trailing characters of `set` removed.
pub fn trim_in(s: &[char], set: &[char]) -> (r: Vec<char>)
    ensures
        r@ == trim_end_in(trim_start_in(s@, set@), set@),
{
    let k = trim_start_count(s, set);
    let rest = slice_vec(s, k, s.len());
    assert(rest@ =~= s@.skip(k as int));
    let e = trim_end_len(rest.as_slice(), set);
    slice_vec(rest.as_slice(), 0, e)
}

/// `s` without leading and trailing whitespace.
pub fn trim(s: &[char]) -> (r: Vec<char>)
    ensures
        r@ == trim_ws(s@),
{
    let ws = whitespace_chars();
    let r = trim_in(s, ws.as_slice());
    r
}

/// The position of the last character of `s` that belongs to `set`, or -1.
pub open spec fn last_in(s: Seq<char>, set: Seq<char>) -> int
    decreases s.len(),
{
    if s.len() == 0 {
        -1
    } else if set.contains(s.last()) {
        s.len() - 1
    } else {
        last_in(s.drop_last(), set)
    }
}

/// `last_in` is a position of `s` holding a character of `set`, with none after it, or -1.
pub proof fn lemma_last_in_bounds(s: Seq<char>, set: Seq<char>)
    ensures
        -1 <= last_in(s, set) < s.len(),
        last_in(s, set) >= 0 ==> set.contains(s[last_in(s, set)]),
        forall|j: int| last_in(s, set) < j < s.len() ==> !set.contains(#[trigger] s[j]),
    decreases s.len(),
{
    if s.len() > 0 && !set.contains(s.last()) {
        lemma_last_in_bounds(s.drop_last(), set);
        assert forall|j: int| last_in(s, set) < j < s.len() implies !set.contains(#[trigger] s[j]) by {
            if j < s.len() - 1 {
                assert(s[j] == s.drop_last()[j]);
            }
        }
    }
}

/// A position holding a character of `set`, with none after it, is `last_in`.
pub proof fn lemma_last_in_is(s: Seq<char>, set: Seq<char>, k: int)
    requires
        k == -1 || (0 <= k < s.len() && set.contains(s[k])),
        forall|j: int| k < j < s.len() ==> !set.contains(#[trigger] s[j]),
    ensures
        last_in(s, set) == k,
    decreases s.len(),
{
    if s.len() > 0 && k < s.len() - 1 {
        assert(!set.contains(s[s.len() - 1]));
        assert forall|j: int| k < j < s.drop_last().len() implies !set.contains(
            #[trigger] s.drop_last()[j],
        ) by {
            assert(s.drop_last()[j] == s[j]);
        }
        if k >= 0 {
            assert(s.drop_last()[k] == s[k]);
        }
        lemma_last_in_is(s.drop_last(), set, k);
    }
}

/// The pieces of `s` between the characters of `set`, as `str::split` gives them.
pub open spec fn split_in(s: Seq<char>, set: Seq<char>) -> Seq<Seq<char>>
    decreases s.len(),
{
    let k = last_in(s, set);
    if k < 0 {
        seq![s]
    } else {
        proof {
            lemma_last_in_bounds(s, set);
        }
        split_in(s.take(k), set).push(s.skip(k + 1))
    }
}

/// The pieces of `s` between the characters of `set`.
pub fn split_by(s: &[char], set: &[char]) -> (r: Vec<Vec<char>>)
    ensures
        r.deep_view() == split_in(s@, set@),
{
    let mut r: Vec<Vec<char>> = Vec::new();
    let mut start: usize = 0;
    let mut i: usize = 0;
    while i < s.len()
        invariant
            start <= i <= s@.len(),
            start == 0 ==> r.deep_view() == Seq::<Seq<char>>::empty(),
            start > 0 ==> set@.contains(s@[start - 1]),
            start > 0 ==> r.deep_view() == split_in(s@.take(start - 1), set@),
            forall|j: int| start <= j < i ==> !set@.contains(#[trigger] s@[j]),
        decreases s.len() - i,
    {
        if contains_char(set, s[i]) {
            let piece = slice_vec(s, start, i);
            let ghost t = s@.take(i as int);
            proof {
                lemma_last_in_is(t, set@, start - 1);
                if start > 0 {
                    assert(t.take(start - 1) =~= s@.take(start - 1));
                    assert(t.skip(start as int) =~= piece@);
                } else {
                    assert(t =~= piece@);
                }
            }
            let ghost old_r = r.deep_view();
            assert(piece.deep_view() =~= piece@);
            r.push(piece);
            assert(r.deep_view() =~= old_r.push(piece@));
            if start > 0 {
                assert(split_in(t, set@) == split_in(t.take(start - 1), set@).push(t.skip(start as int)));
            } else {
                assert(split_in(t, set@) == seq![t]);
            }
            assert(r.deep_view() =~= split_in(t, set@));
            start = i + 1;
        }
        i += 1;
    }
    let piece = slice_vec(s, start, s.len());
    proof {
        lemma_last_in_is(s@, set@, start - 1);
        if start > 0 {
            assert(s@.skip(start as int) =~= piece@);
        } else {
            assert(s@ =~= piece@);
        }
    }
    let ghost old_r = r.deep_view();
    assert(piece.deep_view() =~= piece@);
    r.push(piece);
    assert(r.deep_view() =~= old_r.push(piece@));
    if start > 0 {
        assert(split_in(s@, set@) == split_in(s@.take(start - 1), set@).push(s@.skip(start as int)));
    } else {
        assert(split_in(s@, set@) == seq![s@]);
    }
    assert(r.deep_view() =~= split_in(s@, set@));
    r
}


/// The last position at which `p` occurs in `s`, as `str::rfind` reports it.
pub fn find_last(s: &[char], p: &[char]) -> (r: Option<usize>)
    ensures
        r matches Some(i) ==> occurs_at(s@, p@, i as int) && forall|j: int|
            i < j ==> !occurs_at(s@, p@, j),
        r is None ==> forall|j: int| !occurs_at(s@, p@, j),
{
    if p.len() > s.len() {
        return None;
    }
    let mut i: usize = s.len() - p.len();
    loop
        invariant
            i <= s@.len() - p@.len(),
            forall|j: int| i < j ==> !occurs_at(s@, p@, j),
        decreases i,
    {
        if matches_at(s, p, i) {
            return Some(i);
        }
        if i == 0 {
            return None;
        }
        i -= 1;
    }
}

/// An ASCII decimal digit.
pub open spec fn is_digit(c: char) -> bool {
    '0' <= c && c <= '9'
}

/// Every character of `s` is an ASCII decimal digit.
pub open spec fn all_digits(s: Seq<char>) -> bool {
    forall|i: int| 0 <= i < s.len() ==> is_digit(#[trigger] s[i])
}

/// The value of the digit `c`.
pub open spec fn digit_value(c: char) -> int {
    (c as int) - ('0' as int)
}

/// The number that the decimal digits `s` write.
pub open spec fn decimal_value(s: Seq<char>) -> int
    decreases s.len(),
{
    if s.len() == 0 {
        0
    } else {
        decimal_value(s.drop_last()) * 10 + digit_value(s.last())
    }
}

/// Whether every character of `s` is an ASCII decimal digit.
pub fn is_all_digits(s: &[char]) -> (r: bool)
    ensures
        r == all_digits(s@),
{
    let mut i: usize = 0;
    while i < s.len()
        invariant
            i <= s.len(),
            forall|j: int| 0 <= j < i ==> is_digit(#[trigger] s@[j]),
        decreases s.len() - i,
    {
        if !(s[i] >= '0' && s[i] <= '9') {
            return false;
        }
        i += 1;
    }
    true
}

/// A digit string never has a negative value.
pub proof fn lemma_decimal_nonneg(s: Seq<char>)
    requires
        all_digits(s),
    ensures
        decimal_value(s) >= 0,
    decreases s.len(),
{
    if s.len() > 0 {
        lemma_decimal_nonneg(s.drop_last());
    }
}

/// A prefix of a digit string has at most its value.
pub proof fn lemma_decimal_prefix_le(s: Seq<char>, k: int)
    requires
        all_digits(s),
        0 <= k <= s.len(),
    ensures
        decimal_value(s.take(k)) <= decimal_value(s),
    decreases s.len(),
{
    if k < s.len() {
        assert(s.drop_last().take(k) =~= s.take(k));
        lemma_decimal_prefix_le(s.drop_last(), k);
        lemma_decimal_nonneg(s.drop_last());
    } else {
        assert(s.take(k) =~= s);
    }
}

/// The value of the nonempty digit string `s`, when it is at most `limit`.
pub fn parse_digits_bounded(s: &[char], limit: u64) -> (r: Option<u64>)
    ensures
        r is Some <==> (s@.len() > 0 && all_digits(s@) && decimal_value(s@) <= limit),
        r matches Some(v) ==> v == decimal_value(s@),
{
    if s.len() == 0 || !is_all_digits(s) {
        return None;
    }
    let mut acc: u64 = 0;
    let mut i: usize = 0;
    assert(s@.take(0) =~= Seq::<char>::empty());
    while i < s.len()
        invariant
            i <= s@.len(),
            s@.len() > 0,
            all_digits(s@),
            acc == decimal_value(s@.take(i as int)),
            acc <= limit,
        decreases s.len() - i,
    {
        let c = s[i];
        assert(is_digit(s@[i as int]));
        let d: u64 = (c as u32 - '0' as u32) as u64;
        assert(s@.take(i as int + 1).drop_last() =~= s@.take(i as int));
        assert(decimal_value(s@.take(i as int + 1)) == acc * 10 + d);
        if d > limit || acc > (limit - d) / 10 {
            assert(acc * 10 + d > limit) by (nonlinear_arith)
                requires
                    d > limit || acc > (limit - d) / 10,
                    0 <= d <= 9,
                    acc >= 0,
            ;
            proof {
                lemma_decimal_prefix_le(s@, i as int + 1);
            }
            return None;
        }
        assert(acc * 10 + d <= limit) by (nonlinear_arith)
            requires
                acc <= (limit - d) / 10,
                0 <= d <= limit,
                acc >= 0,
        ;
        acc = acc * 10 + d;
        i += 1;
    }
    assert(s@.take(s@.len() as int) =~= s@);
    Some(acc)
}

/// The value of the nonempty digit string `s`, when it fits in an `i64`.
pub fn parse_digits_i64(s: &[char]) -> (r: Option<i64>)
    ensures
        r is Some <==> (s@.len() > 0 && all_digits(s@) && decimal_value(s@) <= i64::MAX),
        r matches Some(v) ==> v == decimal_value(s@),
{
    match parse_digits_bounded(s, 9223372036854775807u64) {
        Some(v) => Some(v as i64),
        None => None,
    }
}

/// The value that `str::parse::<i64>` gives `s`: an optional sign, then digits.
pub open spec fn signed_decimal(s: Seq<char>) -> Option<int> {
    if s.len() > 0 && (s[0] == '+' || s[0] == '-') {
        let rest = s.drop_first();
        if rest.len() > 0 && all_digits(rest) {
            if s[0] == '-' {
                if -decimal_value(rest) >= i64::MIN {
                    Some(-decimal_value(rest))
                } else {
                    None
                }
            } else if decimal_value(rest) <= i64::MAX {
                Some(decimal_value(rest))
            } else {
                None
            }
        } else {
            None
        }
    } else if s.len() > 0 && all_digits(s) && decimal_value(s) <= i64::MAX {
        Some(decimal_value(s))
    } else {
        None
    }
}

/// Parses `s` as `str::parse::<i64>` does.
pub fn parse_i64(s: &[char]) -> (r: Option<i64>)
    ensures
        r matches Some(v) ==> signed_decimal(s@) == Some(v as int),
        r is None ==> signed_decimal(s@) is None,
{
    if s.len() > 0 && (s[0] == '+' || s[0] == '-') {
        let rest = slice_vec(s, 1, s.len());
        assert(rest@ =~= s@.drop_first());
        if rest.len() == 0 || !is_all_digits(rest.as_slice()) {
            return None;
        }
        if s[0] == '+' {
            return parse_digits_i64(rest.as_slice());
        }
        match parse_digits_bounded(rest.as_slice(), 9223372036854775808u64) {
            Some(v) => Some((0i128 - v as i128) as i64),
            None => None,
        }
    } else {
        parse_digits_i64(s)
    }
}

/// The decimal digits of `n`.
pub open spec fn decimal_string(n: nat) -> Seq<char>
    decreases n,
{
    if n < 10 {
        seq![digit_char(n)]
    } else {
        decimal_string(n / 10).push(digit_char(n % 10))
    }
}

/// The digit character for `d`.
pub open spec fn digit_char(d: nat) -> char {
    ((d + 48) as u8) as char
}

/// Appends the decimal digits of `n` to `out`.
pub fn push_decimal(out: &mut Vec<char>, n: u64)
    ensures
        final(out)@ == old(out)@ + decimal_string(n as nat),
    decreases n,
{
    if n >= 10 {
        push_decimal(out, n / 10);
    }
    let d: u8 = (n % 10) as u8;
    out.push((d + 48) as char);
    proof {
        if n >= 10 {
            assert(decimal_string(n as nat) == decimal_string((n / 10) as nat).push(
                digit_char((n % 10) as nat),
            ));
        }
    }
    assert(final(out)@ =~= old(out)@ + decimal_string(n as nat));
}

/// The text `i64::to_string` gives `n`.
pub open spec fn i64_text(n: int) -> Seq<char> {
    if n < 0 {
        seq!['-'] + decimal_string((-n) as nat)
    } else {
        decimal_string(n as nat)
    }
}

/// The decimal digits of `n` are digits, at least one, and they write `n`.
pub proof fn lemma_decimal_string_value(n: nat)
    ensures
        decimal_string(n).len() > 0,
        all_digits(decimal_string(n)),
        decimal_value(decimal_string(n)) == n,
    decreases n,
{
    let d = n % 10;
    assert(digit_char(d) as int == d + 48);
    assert(('0' as int) == 48);
    assert(digit_value(digit_char(d)) == d);
    assert((n / 10) * 10 + d == n) by (nonlinear_arith)
        requires
            d == n % 10,
    ;
    if n >= 10 {
        lemma_decimal_string_value(n / 10);
        let s = decimal_string(n);
        assert(s.drop_last() =~= decimal_string(n / 10));
        assert(s.last() == digit_char(d));
        assert(decimal_value(s) == decimal_value(s.drop_last()) * 10 + digit_value(s.last()));
        assert forall|i: int| 0 <= i < s.len() implies is_digit(#[trigger] s[i]) by {
            if i < s.len() - 1 {
                assert(s[i] == decimal_string(n / 10)[i]);
            }
        }
    } else {
        let s = decimal_string(n);
        assert(s.drop_last() =~= Seq::<char>::empty());
        assert(decimal_value(Seq::<char>::empty()) == 0);
        assert(decimal_value(s) == decimal_value(s.drop_last()) * 10 + digit_value(s.last()));
    }
}

/// Different numbers have different texts.
pub proof fn lemma_i64_text_injective(a: int, b: int)
    requires
        i64_text(a) == i64_text(b),
    ensures
        a == b,
{
    let da: nat = if a < 0 { (-a) as nat } else { a as nat };
    let db: nat = if b < 0 { (-b) as nat } else { b as nat };
    lemma_decimal_string_value(da);
    lemma_decimal_string_value(db);
    if a < 0 && b >= 0 {
        assert(i64_text(a)[0] == '-');
        assert(is_digit(decimal_string(db)[0]));
    } else if a >= 0 && b < 0 {
        assert(i64_text(b)[0] == '-');
        assert(is_digit(decimal_string(da)[0]));
    } else if a < 0 {
        assert(decimal_string(da) =~= i64_text(a).drop_first());
        assert(decimal_string(db) =~= i64_text(b).drop_first());
    }
}

/// The text of a number holds only digits and possibly a leading `-`.
pub proof fn lemma_i64_text_chars(n: int)
    ensures
        i64_text(n).len() > 0,
        forall|i: int| 0 <= i < i64_text(n).len() ==> is_digit(#[trigger] i64_text(n)[i]) || i64_text(
            n,
        )[i] == '-',
{
    if n < 0 {
        lemma_decimal_string_value((-n) as nat);
        assert forall|i: int| 0 <= i < i64_text(n).len() implies is_digit(#[trigger] i64_text(n)[i])
            || i64_text(n)[i] == '-' by {
            if i > 0 {
                assert(i64_text(n)[i] == decimal_string((-n) as nat)[i - 1]);
            }
        }
    } else {
        lemma_decimal_string_value(n as nat);
    }
}

/// Appends the text of `n` to `out`.
pub fn push_i64(out: &mut Vec<char>, n: i64)
    ensures
        final(out)@ == old(out)@ + i64_text(n as int),
{
    if n < 0 {
        out.push('-');
        let m: u64 = (0i128 - n as i128) as u64;
        push_decimal(out, m);
        assert(final(out)@ =~= old(out)@ + i64_text(n as int));
    } else {
        push_decimal(out, n as u64);
    }
}


/// `a` comes before `b` in the order `str`'s `Ord` uses (by code point, a prefix first).
pub open spec fn seq_lt(a: Seq<char>, b: Seq<char>) -> bool
    decreases a.len(),
{
    if a.len() == 0 {
        b.len() > 0
    } else if b.len() == 0 {
        false
    } else if a[0] != b[0] {
        a[0] < b[0]
    } else {
        seq_lt(a.drop_first(), b.drop_first())
    }
}

/// No text comes before itself.
pub proof fn lemma_seq_lt_irreflexive(a: Seq<char>)
    ensures
        !seq_lt(a, a),
    decreases a.len(),
{
    if a.len() > 0 {
        lemma_seq_lt_irreflexive(a.drop_first());
    }
}

/// The order of texts is transitive.
pub proof fn lemma_seq_lt_transitive(a: Seq<char>, b: Seq<char>, c: Seq<char>)
    requires
        seq_lt(a, b),
        seq_lt(b, c),
    ensures
        seq_lt(a, c),
    decreases a.len(),
{
    if a.len() > 0 && b.len() > 0 && c.len() > 0 {
        if a[0] == b[0] && b[0] == c[0] {
            lemma_seq_lt_transitive(a.drop_first(), b.drop_first(), c.drop_first());
        }
    }
}

/// Of two different texts, one comes before the other.
pub proof fn lemma_seq_lt_total(a: Seq<char>, b: Seq<char>)
    ensures
        a == b || seq_lt(a, b) || seq_lt(b, a),
    decreases a.len(),
{
    if a.len() > 0 && b.len() > 0 {
        if a[0] == b[0] {
            lemma_seq_lt_total(a.drop_first(), b.drop_first());
            if a.drop_first() == b.drop_first() {
                assert(a =~= seq![a[0]] + a.drop_first());
                assert(b =~= seq![b[0]] + b.drop_first());
            }
        }
    } else if a.len() == 0 && b.len() == 0 {
        assert(a =~= b);
    }
}

/// Whether `a` comes before `b`.
pub fn chars_lt(a: &[char], b: &[char]) -> (r: bool)
    ensures
        r == seq_lt(a@, b@),
{
    let mut i: usize = 0;
    assert(a@.skip(0) =~= a@);
    assert(b@.skip(0) =~= b@);
    while i < a.len() && i < b.len() && a[i] == b[i]
        invariant
            i <= a.len(),
            i <= b.len(),
            seq_lt(a@, b@) == seq_lt(a@.skip(i as int), b@.skip(i as int)),
        decreases a.len() - i,
    {
        assert(a@.skip(i as int).drop_first() =~= a@.skip(i as int + 1));
        assert(b@.skip(i as int).drop_first() =~= b@.skip(i as int + 1));
        i += 1;
    }
    if i == a.len() {
        i < b.len()
    } else if i == b.len() {
        false
    } else {
        a[i] < b[i]
    }
}


/// Trimming the end of `s` keeps a prefix of it, which (when not empty) no longer ends with a
/// character of `set`.
pub proof fn lemma_trim_end_is_prefix(s: Seq<char>, set: Seq<char>)
    ensures
        trim_end_in(s, set).len() <= s.len(),
        trim_end_in(s, set) == s.take(trim_end_in(s, set).len() as int),
        trim_end_in(s, set).len() > 0 ==> !set.contains(trim_end_in(s, set).last()),
    decreases s.len(),
{
    if s.len() > 0 && set.contains(s.last()) {
        lemma_trim_end_is_prefix(s.drop_last(), set);
        let k = trim_end_in(s.drop_last(), set).len() as int;
        assert(s.drop_last().take(k) =~= s.take(k));
    } else {
        assert(s.take(s.len() as int) =~= s);
    }
}

/// Trimming the start of `s` keeps a suffix of it, which (when not empty) no longer starts
/// with a character of `set`.
pub proof fn lemma_trim_start_is_suffix(s: Seq<char>, set: Seq<char>)
    ensures
        trim_start_in(s, set).len() <= s.len(),
        trim_start_in(s, set) == s.skip(s.len() - trim_start_in(s, set).len()),
        trim_start_in(s, set).len() > 0 ==> !set.contains(trim_start_in(s, set)[0]),
    decreases s.len(),
{
    if s.len() > 0 && set.contains(s[0]) {
        lemma_trim_start_is_suffix(s.drop_first(), set);
        let k = trim_start_in(s.drop_first(), set).len() as int;
        assert(s.drop_first().skip(s.drop_first().len() - k) =~= s.skip(s.len() - k));
    } else {
        assert(s.skip(0) =~= s);
    }
}

} // verus!
