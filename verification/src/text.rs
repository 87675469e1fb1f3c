//! Character sequences: searching, cutting at a separator, decimal numbers.
//!
//! The kernel's text records are read as sequences of `char`. Everything here
//! is stated over `Seq<char>` and computed on `&[char]`, where positions are
//! cheap to follow.

use vstd::prelude::*;

verus! {

/// Position of the first `c` in `s`, or `s.len()` when `s` holds none.
pub open spec fn first_index(s: Seq<char>, c: char) -> nat
    decreases s.len(),
{
    if s.len() == 0 || s[0] == c {
        0
    } else {
        1 + first_index(s.drop_first(), c)
    }
}

/// The pieces of `s` between the occurrences of `sep`: the piece before the
/// first `sep`, then the pieces of what follows it. A sequence without `sep`
/// is one piece, so there is always at least one.
pub open spec fn split(s: Seq<char>, sep: char) -> Seq<Seq<char>>
    decreases s.len(),
{
    let k = first_index(s, sep) as int;
    if k >= s.len() {
        seq![s]
    } else {
        seq![s.take(k)] + split(s.skip(k + 1), sep)
    }
}

/// `first_index` is in range, lands on `c`, and nothing before it is `c`.
pub proof fn lemma_first_index(s: Seq<char>, c: char)
    ensures
        first_index(s, c) <= s.len(),
        first_index(s, c) < s.len() ==> s[first_index(s, c) as int] == c,
        forall|j: int| 0 <= j < first_index(s, c) ==> s[j] != c,
    decreases s.len(),
{
    if s.len() == 0 || s[0] == c {
    } else {
        let t = s.drop_first();
        lemma_first_index(t, c);
        assert forall|j: int| 0 <= j < first_index(s, c) implies s[j] != c by {
            if j > 0 {
                assert(s[j] == t[j - 1]);
            }
        }
    }
}

/// A position with no `c` before it that holds `c`, or is the end, is the
/// first index.
pub proof fn lemma_first_index_is(s: Seq<char>, c: char, k: int)
    requires
        0 <= k <= s.len(),
        k < s.len() ==> s[k] == c,
        forall|j: int| 0 <= j < k ==> s[j] != c,
    ensures
        first_index(s, c) == k,
    decreases s.len(),
{
    if s.len() == 0 || s[0] == c {
    } else {
        let t = s.drop_first();
        assert forall|j: int| 0 <= j < k - 1 implies t[j] != c by {
            assert(t[j] == s[j + 1]);
        }
        lemma_first_index_is(t, c, k - 1);
    }
}

/// What `split` is from a position on: one piece up to the next `sep` or the
/// end, and in the first case the pieces of the rest after it.
pub proof fn lemma_split_from(s: Seq<char>, sep: char, start: int)
    requires
        0 <= start <= s.len(),
    ensures
        ({
            let end = start + first_index(s.skip(start), sep);
            &&& start <= end <= s.len()
            &&& end == s.len() ==> split(s.skip(start), sep) == seq![s.subrange(start, end)]
            &&& end < s.len() ==> split(s.skip(start), sep) == seq![s.subrange(start, end)]
                + split(s.skip(end + 1), sep)
        }),
{
    let t = s.skip(start);
    let j = first_index(t, sep) as int;
    lemma_first_index(t, sep);
    assert(t.take(j) =~= s.subrange(start, start + j));
    if j < t.len() {
        assert(t.skip(j + 1) =~= s.skip(start + j + 1));
    } else {
        assert(t =~= s.subrange(start, start + j));
    }
}

/// The pieces put together again, with `sep` between each two.
pub open spec fn join(pieces: Seq<Seq<char>>, sep: char) -> Seq<char>
    decreases pieces.len(),
{
    if pieces.len() == 0 {
        Seq::empty()
    } else if pieces.len() == 1 {
        pieces[0]
    } else {
        pieces[0] + seq![sep] + join(pieces.drop_first(), sep)
    }
}

/// `split` cuts at every `sep` and nowhere else: no piece holds `sep`, and
/// the pieces joined with `sep` are the sequence that was split.
pub proof fn lemma_split_joins(s: Seq<char>, sep: char)
    ensures
        split(s, sep).len() >= 1,
        join(split(s, sep), sep) == s,
        forall|i: int| 0 <= i < split(s, sep).len() ==> !(#[trigger] split(s, sep)[i]).contains(sep),
    decreases s.len(),
{
    let k = first_index(s, sep) as int;
    lemma_first_index(s, sep);
    if k < s.len() {
        let head = s.take(k);
        let rest = split(s.skip(k + 1), sep);
        let pieces = split(s, sep);
        lemma_split_joins(s.skip(k + 1), sep);
        assert(pieces.drop_first() =~= rest);
        assert(head + seq![sep] + s.skip(k + 1) =~= s);
        assert forall|i: int| 0 <= i < pieces.len() implies !(#[trigger] pieces[i]).contains(
            sep,
        ) by {
            if i > 0 {
                assert(pieces[i] == rest[i - 1]);
            }
        }
    }
}

/// Whether `c` is one of the ten decimal digits.
pub open spec fn is_digit(c: char) -> bool {
    '0' <= c && c <= '9'
}

/// The number that the digit `c` stands for.
pub open spec fn digit_value(c: char) -> int {
    c as u32 - '0' as u32
}

/// Whether `s` consists of decimal digits only.
pub open spec fn all_digits(s: Seq<char>) -> bool {
    forall|i: int| 0 <= i < s.len() ==> is_digit(#[trigger] s[i])
}

/// The number that a sequence of decimal digits writes, most significant
/// digit first.
pub open spec fn decimal_value(s: Seq<char>) -> int
    decreases s.len(),
{
    if s.len() == 0 {
        0
    } else {
        10 * decimal_value(s.drop_last()) + digit_value(s.last())
    }
}

/// The integer that `s` writes: an optional sign, `+` or `-`, then one or
/// more decimal digits and nothing else.
pub open spec fn signed_decimal(s: Seq<char>) -> Option<int> {
    let signed = s.len() > 0 && (s[0] == '+' || s[0] == '-');
    let digits = if signed {
        s.drop_first()
    } else {
        s
    };
    if digits.len() == 0 || !all_digits(digits) {
        None
    } else if signed && s[0] == '-' {
        Some(-decimal_value(digits))
    } else {
        Some(decimal_value(digits))
    }
}

/// The `i32` that `s` writes, if it writes an integer that fits.
pub open spec fn parse_i32_spec(s: Seq<char>) -> Option<i32> {
    match signed_decimal(s) {
        Some(n) => if i32::MIN <= n <= i32::MAX {
            Some(n as i32)
        } else {
            None
        },
        None => None,
    }
}

/// A digit sequence writes a number that is at least the number written by
/// each of its prefixes, and never a negative one.
pub proof fn lemma_decimal_prefix(s: Seq<char>, k: int)
    requires
        all_digits(s),
        0 <= k <= s.len(),
    ensures
        0 <= decimal_value(s.take(k)) <= decimal_value(s),
    decreases s.len(),
{
    if s.len() == 0 {
        assert(s.take(k) =~= s);
    } else {
        let t = s.drop_last();
        assert(is_digit(s[s.len() - 1]));
        assert forall|i: int| 0 <= i < t.len() implies is_digit(#[trigger] t[i]) by {
            assert(t[i] == s[i]);
        }
        if k == s.len() {
            assert(s.take(k) =~= s);
            assert(t.take(t.len() as int) =~= t);
            lemma_decimal_prefix(t, t.len() as int);
        } else {
            assert(s.take(k) =~= t.take(k));
            lemma_decimal_prefix(t, k);
        }
    }
}

/// A sequence of digits with another digit than `0` in front writes a
/// positive number; an empty one writes 0.
pub proof fn lemma_leading_digit_counts(s: Seq<char>)
    requires
        all_digits(s),
        s.len() > 0 ==> s[0] != '0',
    ensures
        s.len() > 0 ==> decimal_value(s) > 0,
        s.len() == 0 ==> decimal_value(s) == 0,
{
    if s.len() > 0 {
        lemma_decimal_prefix(s, 1);
        let head = s.take(1);
        assert(is_digit(s[0]));
        assert(head.drop_last() =~= Seq::<char>::empty());
        assert(decimal_value(head) == 10 * decimal_value(head.drop_last()) + (head.last() as u32
            - '0' as u32));
        assert(decimal_value(head.drop_last()) == 0);
    }
}

/// Two sequences of digits that write the same number, neither with a `0`
/// in front, are the same.
pub proof fn lemma_decimal_value_injective(a: Seq<char>, b: Seq<char>)
    requires
        all_digits(a),
        all_digits(b),
        a.len() > 0 ==> a[0] != '0',
        b.len() > 0 ==> b[0] != '0',
        decimal_value(a) == decimal_value(b),
    ensures
        a == b,
    decreases a.len(),
{
    if a.len() == 0 || b.len() == 0 {
        lemma_leading_digit_counts(a);
        lemma_leading_digit_counts(b);
        assert(a =~= b);
    } else {
        let front_a = a.drop_last();
        let front_b = b.drop_last();
        assert(is_digit(a[a.len() - 1]) && is_digit(b[b.len() - 1]));
        assert forall|i: int| 0 <= i < front_a.len() implies is_digit(#[trigger] front_a[i]) by {
            assert(front_a[i] == a[i]);
        }
        assert forall|i: int| 0 <= i < front_b.len() implies is_digit(#[trigger] front_b[i]) by {
            assert(front_b[i] == b[i]);
        }
        lemma_decimal_value_injective(front_a, front_b);
        assert(a =~= front_a.push(a.last()));
        assert(b =~= front_b.push(b.last()));
    }
}

/// Where the final path segment of `s` starts: just behind the last `/`, or
/// at 0 when `s` holds none.
pub open spec fn base_start(s: Seq<char>) -> nat
    decreases s.len(),
{
    if s.len() == 0 {
        0
    } else if s.last() == '/' {
        s.len()
    } else {
        base_start(s.drop_last())
    }
}

/// `base_start` is in range, stands at the start or behind a `/`, and no `/`
/// follows it.
pub proof fn lemma_base_start(s: Seq<char>)
    ensures
        base_start(s) <= s.len(),
        base_start(s) > 0 ==> s[base_start(s) - 1] == '/',
        forall|j: int| base_start(s) <= j < s.len() ==> s[j] != '/',
    decreases s.len(),
{
    if s.len() > 0 && s.last() != '/' {
        let t = s.drop_last();
        lemma_base_start(t);
        assert forall|j: int| base_start(s) <= j < s.len() implies s[j] != '/' by {
            if j < t.len() {
                assert(s[j] == t[j]);
            }
        }
        if base_start(s) > 0 {
            assert(s[base_start(s) - 1] == t[base_start(t) - 1]);
        }
    }
}

/// A position at the start or behind a `/`, with no `/` from it on, is where
/// the final path segment starts.
pub proof fn lemma_base_start_is(s: Seq<char>, k: int)
    requires
        0 <= k <= s.len(),
        k > 0 ==> s[k - 1] == '/',
        forall|j: int| k <= j < s.len() ==> s[j] != '/',
    ensures
        base_start(s) == k,
    decreases s.len(),
{
    if s.len() == 0 {
    } else if s.last() == '/' {
        if k < s.len() {
            assert(s[s.len() - 1] != '/');
        }
    } else {
        let t = s.drop_last();
        assert(k < s.len());
        if k > 0 {
            assert(t[k - 1] == s[k - 1]);
        }
        assert forall|j: int| k <= j < t.len() implies t[j] != '/' by {
            assert(t[j] == s[j]);
        }
        lemma_base_start_is(t, k);
    }
}

/// Collects the characters of `s` into a vector, in order.
pub fn chars_of(s: &str) -> (v: Vec<char>)
    ensures
        v@ == s@,
{
    broadcast use vstd::string::group_string_axioms;

    let mut v: Vec<char> = Vec::new();
    for c in it: s.chars()
        invariant
            it.seq() == s@,
            v@ == s@.take(it.index()),
    {
        v.push(c);
    }
    v
}

/// Searches `v` for `c` from position `from` on.
pub(crate) fn find_from(v: &[char], c: char, from: usize) -> (k: usize)
    requires
        from <= v@.len(),
    ensures
        from <= k <= v@.len(),
        k == from + first_index(v@.skip(from as int), c),
{
    let mut k: usize = from;
    while k < v.len() && v[k] != c
        invariant
            from <= k <= v@.len(),
            forall|j: int| from <= j < k ==> v@[j] != c,
        decreases v@.len() - k,
    {
        k += 1;
    }
    proof {
        lemma_first_index_is(v@.skip(from as int), c, k - from);
    }
    k
}

/// Whether two character slices hold the same text.
pub fn same_chars(a: &[char], b: &[char]) -> (same: bool)
    ensures
        same == (a@ == b@),
{
    if a.len() != b.len() {
        return false;
    }
    let mut i: usize = 0;
    while i < a.len()
        invariant
            a@.len() == b@.len(),
            i <= a@.len(),
            forall|j: int| 0 <= j < i ==> a@[j] == b@[j],
        decreases a@.len() - i,
    {
        if a[i] != b[i] {
            return false;
        }
        i += 1;
    }
    assert(a@ =~= b@);
    true
}

/// Whether the part of `a` from `from` on is the text of `b`.
pub(crate) fn tail_is(a: &[char], from: usize, b: &[char]) -> (same: bool)
    requires
        from <= a@.len(),
    ensures
        same == (a@.skip(from as int) == b@),
{
    if a.len() - from != b.len() {
        return false;
    }
    let mut i: usize = 0;
    while i < b.len()
        invariant
            from <= a@.len() <= usize::MAX,
            a@.len() - from == b@.len(),
            i <= b@.len(),
            forall|j: int| 0 <= j < i ==> a@[from + j] == b@[j],
        decreases b@.len() - i,
    {
        if a[from + i] != b[i] {
            assert(a@.skip(from as int)[i as int] != b@[i as int]);
            return false;
        }
        i += 1;
    }
    assert(a@.skip(from as int) =~= b@);
    true
}

/// Finds the piece of `v` with index `n` among the pieces that `sep` cuts
/// `v` into, as the positions where it starts and ends.
pub fn field_bounds(v: &[char], sep: char, n: usize) -> (r: Option<(usize, usize)>)
    ensures
        match r {
            Some((a, b)) => {
                &&& a <= b <= v@.len()
                &&& n < split(v@, sep).len()
                &&& split(v@, sep)[n as int] == v@.subrange(a as int, b as int)
            },
            None => split(v@, sep).len() <= n,
        },
{
    let len = v.len();
    let mut start: usize = 0;
    let mut k: usize = 0;
    let ghost mut before: Seq<Seq<char>> = Seq::empty();
    assert(v@.skip(0) =~= v@);
    loop
        invariant
            start <= v@.len() == len,
            k <= n,
            before.len() == k,
            split(v@, sep) == before + split(v@.skip(start as int), sep),
        decreases v@.len() - start,
    {
        let end = find_from(v, sep, start);
        proof {
            lemma_split_from(v@, sep, start as int);
        }
        if k == n {
            return Some((start, end));
        }
        if end == len {
            return None;
        }
        proof {
            let piece = v@.subrange(start as int, end as int);
            assert(before + (seq![piece] + split(v@.skip(end + 1), sep)) =~= before.push(piece)
                + split(v@.skip(end + 1), sep));
            before = before.push(piece);
        }
        start = end + 1;
        k += 1;
    }
}

/// Reads the part of `v` from `from` to `to` as an `i32` in decimal.
#[verifier::loop_isolation(false)]
pub(crate) fn parse_i32(v: &[char], from: usize, to: usize) -> (r: Option<i32>)
    requires
        from <= to <= v@.len(),
    ensures
        r == parse_i32_spec(v@.subrange(from as int, to as int)),
{
    let ghost s = v@.subrange(from as int, to as int);
    if from == to {
        return None;
    }
    assert(s[0] == v@[from as int]);
    let negative = v[from] == '-';
    let signed = negative || v[from] == '+';
    let start: usize = if signed {
        from + 1
    } else {
        from
    };
    let ghost digits = v@.subrange(start as int, to as int);
    assert(digits =~= if signed {
        s.drop_first()
    } else {
        s
    });
    if start == to {
        return None;
    }
    let mut acc: i64 = 0;
    let mut i: usize = start;
    while i < to
        invariant
            start <= i <= to <= v@.len(),
            digits == v@.subrange(start as int, to as int),
            all_digits(digits.take(i - start)),
            acc == decimal_value(digits.take(i - start)),
            0 <= acc <= 0x8000_0000,
        decreases to - i,
    {
        let c = v[i];
        assert(digits[i - start] == c);
        if !(c >= '0' && c <= '9') {
            return None;
        }
        let d: i64 = (c as u32 - '0' as u32) as i64;
        proof {
            let next = digits.take(i - start + 1);
            assert(next.drop_last() =~= digits.take(i - start));
            assert forall|j: int| 0 <= j < next.len() implies is_digit(#[trigger] next[j]) by {
                if j < next.len() - 1 {
                    assert(next[j] == digits.take(i - start)[j]);
                }
            }
        }
        acc = acc * 10 + d;
        if acc > 0x8000_0000 {
            proof {
                if all_digits(digits) {
                    lemma_decimal_prefix(digits, i - start + 1);
                }
            }
            return None;
        }
        i += 1;
    }
    assert(digits.take(to - start) =~= digits);
    if negative {
        Some((-acc) as i32)
    } else if acc > 0x7fff_ffff {
        None
    } else {
        Some(acc as i32)
    }
}

/// Finds where the final path segment of `v` starts.
pub fn base_start_of(v: &[char]) -> (k: usize)
    ensures
        k == base_start(v@),
        k <= v@.len(),
{
    let mut k: usize = v.len();
    while k > 0 && v[k - 1] != '/'
        invariant
            k <= v@.len(),
            forall|j: int| k <= j < v@.len() ==> v@[j] != '/',
        decreases k,
    {
        k -= 1;
    }
    proof {
        lemma_base_start_is(v@, k as int);
    }
    k
}

} // verus!
