//! Character-level text model shared by the parsers: whitespace and ASCII classes, trimming,
//! splitting and decimal rendering, each stated over `Seq<char>` and implemented on `Vec<char>`.
use vstd::prelude::*;

verus! {

// ---------------------------------------------------------------------------------------------
// Character classes
// ---------------------------------------------------------------------------------------------

/// Unicode `White_Space`, the set that `char::is_whitespace` (and so `str::trim`) uses.
pub open spec fn is_ws(c: char) -> bool {
    ||| c == '\t'
    ||| c == '\n'
    ||| c == '\x0B'
    ||| c == '\x0C'
    ||| c == '\r'
    ||| c == ' '
    ||| c == '\u{85}'
    ||| c == '\u{A0}'
    ||| c == '\u{1680}'
    ||| ('\u{2000}' <= c && c <= '\u{200A}')
    ||| c == '\u{2028}'
    ||| c == '\u{2029}'
    ||| c == '\u{202F}'
    ||| c == '\u{205F}'
    ||| c == '\u{3000}'
}

pub open spec fn is_ascii_digit(c: char) -> bool {
    '0' <= c && c <= '9'
}

/// `char::to_ascii_lowercase`: `A`..=`Z` map to `a`..=`z`, everything else is unchanged.
pub open spec fn lower_char(c: char) -> char {
    if 'A' <= c && c <= 'Z' {
        ((c as u8) + 32) as char
    } else {
        c
    }
}

/// `str::to_ascii_lowercase`, character by character.
pub open spec fn ascii_lower(s: Seq<char>) -> Seq<char> {
    s.map_values(|c: char| lower_char(c))
}

/// The classes of characters that the parsers skip or keep in a run.
#[derive(Clone, Copy, PartialEq, Eq, Debug)]
pub enum CharClass {
    /// Unicode whitespace.
    Whitespace,
    /// `v` or `V`, the prefix of a version tag.
    VersionPrefix,
    /// ASCII digits and `.`.
    DigitOrDot,
    /// Whitespace and the Markdown list and quote markers `-`, `*`, `>`.
    ListMarker,
    /// The path separators `/` and `\`.
    PathSeparator,
}

pub open spec fn in_class(k: CharClass, c: char) -> bool {
    match k {
        CharClass::Whitespace => is_ws(c),
        CharClass::VersionPrefix => c == 'v' || c == 'V',
        CharClass::DigitOrDot => is_ascii_digit(c) || c == '.',
        CharClass::ListMarker => is_ws(c) || c == '-' || c == '*' || c == '>',
        CharClass::PathSeparator => c == '/' || c == '\\',
    }
}

pub fn is_whitespace(c: char) -> (b: bool)
    ensures
        b == is_ws(c),
{
    c == '\t' || c == '\n' || c == '\x0B' || c == '\x0C' || c == '\r' || c == ' '
        || c == '\u{85}' || c == '\u{A0}' || c == '\u{1680}'
        || ('\u{2000}' <= c && c <= '\u{200A}')
        || c == '\u{2028}' || c == '\u{2029}' || c == '\u{202F}' || c == '\u{205F}'
        || c == '\u{3000}'
}

pub fn is_digit(c: char) -> (b: bool)
    ensures
        b == is_ascii_digit(c),
{
    '0' <= c && c <= '9'
}

pub fn to_lower(c: char) -> (r: char)
    ensures
        r == lower_char(c),
{
    if 'A' <= c && c <= 'Z' {
        ((c as u8) + 32) as char
    } else {
        c
    }
}

pub fn class_contains(k: CharClass, c: char) -> (b: bool)
    ensures
        b == in_class(k, c),
{
    match k {
        CharClass::Whitespace => is_whitespace(c),
        CharClass::VersionPrefix => c == 'v' || c == 'V',
        CharClass::DigitOrDot => is_digit(c) || c == '.',
        CharClass::ListMarker => is_whitespace(c) || c == '-' || c == '*' || c == '>',
        CharClass::PathSeparator => c == '/' || c == '\\',
    }
}

// ---------------------------------------------------------------------------------------------
// Runs, trimming, splitting
// ---------------------------------------------------------------------------------------------

/// `s` without its leading run of characters of class `k` (`trim_start_matches`).
pub open spec fn skip_class(s: Seq<char>, k: CharClass) -> Seq<char>
    decreases s.len(),
{
    if s.len() > 0 && in_class(k, s[0]) {
        skip_class(s.drop_first(), k)
    } else {
        s
    }
}

/// The leading run of characters of class `k` (`chars().take_while(..)`).
pub open spec fn take_class(s: Seq<char>, k: CharClass) -> Seq<char>
    decreases s.len(),
{
    if s.len() > 0 && in_class(k, s[0]) {
        seq![s[0]] + take_class(s.drop_first(), k)
    } else {
        Seq::empty()
    }
}

/// `s` without its trailing run of characters of class `k` (`trim_end_matches`).
pub open spec fn trim_end_class(s: Seq<char>, k: CharClass) -> Seq<char>
    decreases s.len(),
{
    if s.len() > 0 && in_class(k, s.last()) {
        trim_end_class(s.drop_last(), k)
    } else {
        s
    }
}

/// `str::trim`: whitespace removed from both ends.
pub open spec fn trim_ws(s: Seq<char>) -> Seq<char> {
    trim_end_class(skip_class(s, CharClass::Whitespace), CharClass::Whitespace)
}

/// A string whose `trim()` is empty: every character is whitespace.
pub open spec fn is_blank(s: Seq<char>) -> bool {
    forall|i: int| 0 <= i < s.len() ==> is_ws(#[trigger] s[i])
}

/// `str::split(sep)`: the pieces between occurrences of `sep`, always at least one.
pub open spec fn split_on(s: Seq<char>, sep: char) -> Seq<Seq<char>>
    decreases s.len(),
{
    if s.len() == 0 {
        seq![Seq::empty()]
    } else {
        let init = split_on(s.drop_last(), sep);
        if s.last() == sep {
            init.push(Seq::empty())
        } else {
            init.update(init.len() - 1, init.last().push(s.last()))
        }
    }
}

/// `s` ends with `suffix`.
pub open spec fn ends_with(s: Seq<char>, suffix: Seq<char>) -> bool {
    suffix.len() <= s.len() && s.subrange(s.len() - suffix.len(), s.len() as int) == suffix
}

/// The views of a sequence of character vectors.
pub open spec fn views(v: Seq<Vec<char>>) -> Seq<Seq<char>> {
    v.map_values(|x: Vec<char>| x@)
}

pub proof fn lemma_skip_class(s: Seq<char>, k: CharClass, i: int)
    requires
        0 <= i <= s.len(),
        forall|j: int| 0 <= j < i ==> in_class(k, #[trigger] s[j]),
        i == s.len() || !in_class(k, s[i]),
    ensures
        skip_class(s, k) == s.skip(i),
    decreases i,
{
    if i == 0 {
        assert(s.skip(0) =~= s);
    } else {
        let t = s.drop_first();
        assert forall|j: int| 0 <= j < i - 1 implies in_class(k, #[trigger] t[j]) by {
            assert(t[j] == s[j + 1]);
        }
        lemma_skip_class(t, k, i - 1);
        assert(t.skip(i - 1) =~= s.skip(i));
    }
}

pub proof fn lemma_take_class(s: Seq<char>, k: CharClass, i: int)
    requires
        0 <= i <= s.len(),
        forall|j: int| 0 <= j < i ==> in_class(k, #[trigger] s[j]),
        i == s.len() || !in_class(k, s[i]),
    ensures
        take_class(s, k) == s.take(i),
    decreases i,
{
    if i == 0 {
        assert(s.take(0) =~= Seq::<char>::empty());
    } else {
        let t = s.drop_first();
        assert forall|j: int| 0 <= j < i - 1 implies in_class(k, #[trigger] t[j]) by {
            assert(t[j] == s[j + 1]);
        }
        lemma_take_class(t, k, i - 1);
        assert(seq![s[0]] + t.take(i - 1) =~= s.take(i));
    }
}

pub proof fn lemma_trim_end_class(s: Seq<char>, k: CharClass, i: int)
    requires
        0 <= i <= s.len(),
        forall|j: int| i <= j < s.len() ==> in_class(k, #[trigger] s[j]),
        i == 0 || !in_class(k, s[i - 1]),
    ensures
        trim_end_class(s, k) == s.take(i),
    decreases s.len() - i,
{
    if i == s.len() {
        assert(s.take(i) =~= s);
    } else {
        let t = s.drop_last();
        assert forall|j: int| i <= j < t.len() implies in_class(k, #[trigger] t[j]) by {
            assert(t[j] == s[j]);
        }
        assert(in_class(k, s[s.len() - 1]));
        lemma_trim_end_class(t, k, i);
        assert(t.take(i) =~= s.take(i));
    }
}

pub proof fn lemma_split_on_nonempty(s: Seq<char>, sep: char)
    ensures
        split_on(s, sep).len() >= 1,
    decreases s.len(),
{
    if s.len() > 0 {
        lemma_split_on_nonempty(s.drop_last(), sep);
    }
}

/// Characters of a string slice, in order.
pub fn chars_of(s: &str) -> (r: Vec<char>)
    ensures
        r@ == s@,
{
    broadcast use vstd::string::group_string_axioms;

    let mut r: Vec<char> = Vec::new();
    for c in it: s.chars()
        invariant
            r@ == it.seq().take(it.index() as int),
    {
        r.push(c);
    }
    r
}

pub assume_specification[ String::push ](s: &mut String, ch: char)
    ensures
        final(s)@ == old(s)@.push(ch),
;

/// The string made of `v[from..to]`.
pub fn string_of(v: &Vec<char>, from: usize, to: usize) -> (s: String)
    requires
        from <= to <= v@.len(),
    ensures
        s@ == v@.subrange(from as int, to as int),
{
    let mut s = String::new();
    let mut i = from;
    while i < to
        invariant
            from <= i <= to <= v@.len(),
            s@ == v@.subrange(from as int, i as int),
        decreases to - i,
    {
        s.push(v[i]);
        assert(v@.subrange(from as int, i + 1) =~= v@.subrange(from as int, i as int).push(
            v@[i as int],
        ));
        i = i + 1;
    }
    s
}

/// Appends a string slice to a string.
pub fn push_str(s: &mut String, t: &str)
    ensures
        final(s)@ == old(s)@ + t@,
{
    let v = chars_of(t);
    let ghost start = s@;
    for i in 0..v.len()
        invariant
            v@ == t@,
            s@ == start + v@.take(i as int),
    {
        s.push(v[i]);
        assert(start + v@.take(i + 1) =~= (start + v@.take(i as int)).push(v@[i as int]));
    }
    assert(v@.take(v@.len() as int) =~= v@);
}

/// Equality of two string slices.
pub fn eq_str(a: &str, b: &str) -> (r: bool)
    ensures
        r == (a@ == b@),
{
    let x = chars_of(a);
    let y = chars_of(b);
    if x.len() != y.len() {
        return false;
    }
    for i in 0..x.len()
        invariant
            x@ == a@,
            y@ == b@,
            x@.len() == y@.len(),
            forall|j: int| 0 <= j < i ==> x@[j] == y@[j],
    {
        if x[i] != y[i] {
            assert(x@[i as int] != y@[i as int]);
            return false;
        }
    }
    assert(x@ =~= y@);
    true
}

/// `s.starts_with(prefix)`.
pub fn starts_with(s: &str, prefix: &str) -> (r: bool)
    ensures
        r == prefix@.is_prefix_of(s@),
{
    let x = chars_of(s);
    let p = chars_of(prefix);
    if p.len() > x.len() {
        return false;
    }
    for i in 0..p.len()
        invariant
            x@ == s@,
            p@ == prefix@,
            p@.len() <= x@.len(),
            forall|j: int| 0 <= j < i ==> p@[j] == x@[j],
    {
        if p[i] != x[i] {
            assert(p@[i as int] != x@[i as int]);
            return false;
        }
    }
    true
}

/// Whether every character of `v` is whitespace (`trim().is_empty()`).
pub fn all_whitespace(v: &Vec<char>) -> (r: bool)
    ensures
        r == is_blank(v@),
{
    for i in 0..v.len()
        invariant
            forall|j: int| 0 <= j < i ==> is_ws(#[trigger] v@[j]),
    {
        if !is_whitespace(v[i]) {
            return false;
        }
    }
    true
}

/// The end of the run of class `k` that starts at `from` (at most `to`).
pub fn run_end(v: &Vec<char>, from: usize, to: usize, k: CharClass) -> (i: usize)
    requires
        from <= to <= v@.len(),
    ensures
        from <= i <= to,
        skip_class(v@.subrange(from as int, to as int), k) == v@.subrange(i as int, to as int),
        take_class(v@.subrange(from as int, to as int), k) == v@.subrange(from as int, i as int),
{
    let mut i = from;
    while i < to && class_contains(k, v[i])
        invariant
            from <= i <= to <= v@.len(),
            forall|j: int| from <= j < i ==> in_class(k, #[trigger] v@[j]),
        decreases to - i,
    {
        i = i + 1;
    }
    proof {
        let s = v@.subrange(from as int, to as int);
        let n = i - from;
        assert forall|j: int| 0 <= j < n implies in_class(k, #[trigger] s[j]) by {
            assert(s[j] == v@[from + j]);
        }
        lemma_skip_class(s, k, n);
        lemma_take_class(s, k, n);
        assert(s.skip(n) =~= v@.subrange(i as int, to as int));
        assert(s.take(n) =~= v@.subrange(from as int, i as int));
    }
    i
}

/// The start of the run of class `k` that ends at `to` (at least `from`).
pub fn run_start_back(v: &Vec<char>, from: usize, to: usize, k: CharClass) -> (i: usize)
    requires
        from <= to <= v@.len(),
    ensures
        from <= i <= to,
        trim_end_class(v@.subrange(from as int, to as int), k) == v@.subrange(
            from as int,
            i as int,
        ),
{
    let mut i = to;
    while i > from && class_contains(k, v[i - 1])
        invariant
            from <= i <= to <= v@.len(),
            forall|j: int| i <= j < to ==> in_class(k, #[trigger] v@[j]),
        decreases i - from,
    {
        i = i - 1;
    }
    proof {
        let s = v@.subrange(from as int, to as int);
        let n = i - from;
        assert forall|j: int| n <= j < s.len() implies in_class(k, #[trigger] s[j]) by {
            assert(s[j] == v@[from + j]);
        }
        if n > 0 {
            assert(s[n - 1] == v@[i - 1]);
        }
        lemma_trim_end_class(s, k, n);
        assert(s.take(n) =~= v@.subrange(from as int, i as int));
    }
    i
}

/// The bounds of `trim()` of `v[from..to]`.
pub fn trim_bounds(v: &Vec<char>, from: usize, to: usize) -> (r: (usize, usize))
    requires
        from <= to <= v@.len(),
    ensures
        from <= r.0 <= r.1 <= to,
        trim_ws(v@.subrange(from as int, to as int)) == v@.subrange(r.0 as int, r.1 as int),
{
    let a = run_end(v, from, to, CharClass::Whitespace);
    let b = run_start_back(v, a, to, CharClass::Whitespace);
    (a, b)
}

/// The pieces of `v[from..to]` between occurrences of `sep`.
pub fn split_chars(v: &Vec<char>, from: usize, to: usize, sep: char) -> (r: Vec<Vec<char>>)
    requires
        from <= to <= v@.len(),
    ensures
        views(r@) == split_on(v@.subrange(from as int, to as int), sep),
{
    let mut done: Vec<Vec<char>> = Vec::new();
    let mut cur: Vec<char> = Vec::new();
    let mut i = from;
    assert(v@.subrange(from as int, from as int) =~= Seq::<char>::empty());
    assert(views(done@).push(cur@) =~= seq![Seq::<char>::empty()]);
    while i < to
        invariant
            from <= i <= to <= v@.len(),
            views(done@).push(cur@) == split_on(v@.subrange(from as int, i as int), sep),
        decreases to - i,
    {
        let ghost prev = v@.subrange(from as int, i as int);
        let ghost next = v@.subrange(from as int, i + 1);
        assert(next.drop_last() =~= prev);
        assert(next.last() == v@[i as int]);
        let c = v[i];
        if c == sep {
            let mut finished: Vec<char> = Vec::new();
            std::mem::swap(&mut cur, &mut finished);
            done.push(finished);
            assert(views(done@).push(cur@) =~= split_on(prev, sep).push(Seq::<char>::empty()));
        } else {
            let ghost before = views(done@).push(cur@);
            cur.push(c);
            assert(views(done@).push(cur@) =~= before.update(
                before.len() - 1,
                before.last().push(c),
            ));
        }
        i = i + 1;
    }
    done.push(cur);
    assert(views(done@) =~= split_on(v@.subrange(from as int, to as int), sep));
    done
}

// ---------------------------------------------------------------------------------------------
// Decimal numbers
// ---------------------------------------------------------------------------------------------

/// The numeric value of an ASCII digit.
pub open spec fn digit_value(c: char) -> nat {
    ((c as u32) - ('0' as u32)) as nat
}

/// The value of a string of ASCII digits read in base ten.
pub open spec fn digits_value(s: Seq<char>) -> nat
    decreases s.len(),
{
    if s.len() == 0 {
        0
    } else {
        digits_value(s.drop_last()) * 10 + digit_value(s.last())
    }
}

pub open spec fn all_digits(s: Seq<char>) -> bool {
    forall|i: int| 0 <= i < s.len() ==> is_ascii_digit(#[trigger] s[i])
}

/// What `u32::from_str` gives for a string of ASCII characters: a non-empty run of digits whose
/// value fits in a `u32`.
pub open spec fn digits_to_u32(s: Seq<char>) -> Option<u32> {
    if s.len() > 0 && all_digits(s) && digits_value(s) <= u32::MAX {
        Some(digits_value(s) as u32)
    } else {
        None
    }
}

/// The ASCII digit of a value below ten.
pub open spec fn digit_char(d: nat) -> char {
    ((d as u8) + 48) as char
}

/// The decimal text of `n`, as `format!("{}", n)` writes it.
pub open spec fn decimal(n: nat) -> Seq<char>
    decreases n,
{
    if n < 10 {
        seq![digit_char(n)]
    } else {
        decimal(n / 10).push(digit_char(n % 10))
    }
}

pub proof fn lemma_digits_value_prefix(s: Seq<char>, i: int)
    requires
        0 <= i <= s.len(),
    ensures
        digits_value(s.take(i)) <= digits_value(s),
    decreases s.len() - i,
{
    if i < s.len() {
        lemma_digits_value_prefix(s, i + 1);
        let t = s.take(i + 1);
        assert(t.drop_last() =~= s.take(i));
    } else {
        assert(s.take(i) =~= s);
    }
}

/// `u32::from_str` on `v[from..to]`, a string of ASCII characters.
pub fn parse_u32_digits(v: &Vec<char>, from: usize, to: usize) -> (r: Option<u32>)
    requires
        from <= to <= v@.len(),
    ensures
        r == digits_to_u32(v@.subrange(from as int, to as int)),
{
    let ghost s = v@.subrange(from as int, to as int);
    if from == to {
        return None;
    }
    let mut acc: u32 = 0;
    let mut i = from;
    while i < to
        invariant
            from <= i <= to <= v@.len(),
            s == v@.subrange(from as int, to as int),
            all_digits(v@.subrange(from as int, i as int)),
            acc as nat == digits_value(v@.subrange(from as int, i as int)),
        decreases to - i,
    {
        let ghost prev = v@.subrange(from as int, i as int);
        let ghost next = v@.subrange(from as int, i + 1);
        assert(next.drop_last() =~= prev);
        let c = v[i];
        if !is_digit(c) {
            assert(!all_digits(s)) by {
                assert(s[i - from] == c);
            }
            return None;
        }
        let d = (c as u32) - ('0' as u32);
        if (acc as u64) * 10 + (d as u64) > (u32::MAX as u64) {
            proof {
                assert(s.take(i + 1 - from) =~= next);
                lemma_digits_value_prefix(s, i + 1 - from);
            }
            return None;
        }
        acc = acc * 10 + d;
        i = i + 1;
    }
    assert(v@.subrange(from as int, i as int) =~= s);
    Some(acc)
}

/// Appends the decimal text of `n` to `s`.
pub fn push_decimal(s: &mut String, n: u64)
    ensures
        final(s)@ == old(s)@ + decimal(n as nat),
    decreases n,
{
    let ghost start = s@;
    if n >= 10 {
        push_decimal(s, n / 10);
    }
    let d = n % 10;
    s.push(((d as u8) + 48) as char);
    proof {
        if n >= 10 {
            assert(start + decimal(n as nat) =~= (start + decimal((n / 10) as nat)).push(
                digit_char((n % 10) as nat),
            ));
        } else {
            assert(start + decimal(n as nat) =~= start.push(digit_char(n as nat)));
        }
    }
}

} // verus!

verus! {

/// A piece without the separator splits into itself.
pub proof fn lemma_split_on_without_sep(s: Seq<char>, sep: char)
    requires
        !s.contains(sep),
    ensures
        split_on(s, sep) == seq![s],
    decreases s.len(),
{
    if s.len() == 0 {
        assert(s =~= Seq::<char>::empty());
        assert(split_on(s, sep) =~= seq![s]);
    } else {
        let t = s.drop_last();
        assert(!t.contains(sep)) by {
            if t.contains(sep) {
                let i = choose|i: int| 0 <= i < t.len() && t[i] == sep;
                assert(s[i] == sep);
            }
        }
        assert(s.last() != sep) by {
            assert(s[s.len() - 1] == s.last());
        }
        lemma_split_on_without_sep(t, sep);
        assert(t.push(s.last()) =~= s);
        let init = split_on(t, sep);
        assert(split_on(s, sep) == init.update(init.len() - 1, init.last().push(s.last())));
        assert(init.update(0, t.push(s.last())) =~= seq![s]);
    }
}

/// Splitting `x`, a separator, then a piece without separators: the pieces of `x` and then
/// that piece.
pub proof fn lemma_split_on_append(x: Seq<char>, sep: char, b: Seq<char>)
    requires
        !b.contains(sep),
    ensures
        split_on(x + seq![sep] + b, sep) == split_on(x, sep).push(b),
    decreases b.len(),
{
    let s = x + seq![sep] + b;
    if b.len() == 0 {
        assert(s.drop_last() =~= x);
        assert(s.last() == sep);
        assert(b =~= Seq::<char>::empty());
    } else {
        let b0 = b.drop_last();
        assert(!b0.contains(sep)) by {
            if b0.contains(sep) {
                let i = choose|i: int| 0 <= i < b0.len() && b0[i] == sep;
                assert(b[i] == sep);
            }
        }
        assert(b.last() != sep) by {
            assert(b[b.len() - 1] == b.last());
        }
        lemma_split_on_append(x, sep, b0);
        assert(s.drop_last() =~= x + seq![sep] + b0);
        assert(s.last() == b.last());
        lemma_split_on_nonempty(x, sep);
        assert(b0.push(b.last()) =~= b);
        assert(split_on(s, sep) =~= split_on(x, sep).push(b));
    }
}

pub proof fn lemma_digit_char(d: nat)
    requires
        d < 10,
    ensures
        is_ascii_digit(digit_char(d)),
        digit_value(digit_char(d)) == d,
{
}

/// The decimal text of `n` is a non-empty run of digits whose value is `n`.
pub proof fn lemma_decimal(n: nat)
    ensures
        decimal(n).len() > 0,
        all_digits(decimal(n)),
        digits_value(decimal(n)) == n,
    decreases n,
{
    lemma_digit_char(n % 10);
    assert((n / 10) * 10 + n % 10 == n) by (nonlinear_arith);
    if n < 10 {
        assert(n % 10 == n);
        let s = decimal(n);
        assert(s == seq![digit_char(n)]);
        assert(s.drop_last() =~= Seq::<char>::empty());
        assert(digits_value(s.drop_last()) == 0);
        assert(s.last() == digit_char(n));
        assert(digits_value(s) == digits_value(s.drop_last()) * 10 + digit_value(s.last()));
    } else {
        lemma_decimal(n / 10);
        let s = decimal(n);
        assert(s.drop_last() =~= decimal(n / 10));
        assert(s.last() == digit_char(n % 10));
        assert(digits_value(s) == digits_value(s.drop_last()) * 10 + digit_value(s.last()));
    }
}

} // verus!

verus! {

/// `trim_end_class(s, k)` is a prefix of `s` after which every character is of class `k`, and
/// whose own last character (if any) is not.
pub proof fn lemma_trim_end_class_shape(s: Seq<char>, k: CharClass)
    ensures
        trim_end_class(s, k).len() <= s.len(),
        trim_end_class(s, k) == s.take(trim_end_class(s, k).len() as int),
        forall|j: int| trim_end_class(s, k).len() <= j < s.len() ==> in_class(k, #[trigger] s[j]),
        trim_end_class(s, k).len() == 0 || !in_class(k, s[trim_end_class(s, k).len() - 1]),
    decreases s.len(),
{
    if s.len() > 0 && in_class(k, s.last()) {
        let t = s.drop_last();
        lemma_trim_end_class_shape(t, k);
        let n = trim_end_class(t, k).len();
        assert(t.take(n as int) =~= s.take(n as int));
        assert forall|j: int| n <= j < s.len() implies in_class(k, #[trigger] s[j]) by {
            if j < t.len() {
                assert(t[j] == s[j]);
            }
        }
        if n > 0 {
            assert(t[n - 1] == s[n - 1]);
        }
    } else {
        assert(s.take(s.len() as int) =~= s);
    }
}

/// Trimming the end of `a + b` only reaches into `a` when all of `b` is trimmed.
pub proof fn lemma_trim_end_class_append(a: Seq<char>, b: Seq<char>, k: CharClass)
    requires
        a.len() > 0,
        !in_class(k, a.last()),
    ensures
        trim_end_class(a + b, k) == a + trim_end_class(b, k),
{
    lemma_trim_end_class_shape(b, k);
    let m = trim_end_class(b, k).len();
    let x = a + b;
    let i: int = (a.len() + m) as int;
    assert forall|j: int| i <= j < x.len() implies in_class(k, #[trigger] x[j]) by {
        assert(x[j] == b[j - a.len()]);
    }
    if m > 0 {
        assert(x[i - 1] == b[m - 1]);
    } else {
        assert(x[i - 1] == a[a.len() - 1]);
    }
    lemma_trim_end_class(x, k, i);
    assert(x.take(i) =~= a + b.take(m as int));
}

} // verus!

verus! {

/// Splitting at a separator splits the pieces on each side independently.
pub proof fn lemma_split_on_concat(x: Seq<char>, sep: char, y: Seq<char>)
    ensures
        split_on(x + seq![sep] + y, sep) == split_on(x, sep) + split_on(y, sep),
    decreases y.len(),
{
    let s = x + seq![sep] + y;
    lemma_split_on_nonempty(x, sep);
    if y.len() == 0 {
        assert(s.drop_last() =~= x);
        assert(s.last() == sep);
        assert(split_on(y, sep) =~= seq![Seq::<char>::empty()]);
        assert(split_on(s, sep) =~= split_on(x, sep) + split_on(y, sep));
    } else {
        let y0 = y.drop_last();
        lemma_split_on_concat(x, sep, y0);
        lemma_split_on_nonempty(y0, sep);
        assert(s.drop_last() =~= x + seq![sep] + y0);
        assert(s.last() == y.last());
        let a = split_on(x, sep);
        let b = split_on(y0, sep);
        if y.last() == sep {
            assert(split_on(s, sep) =~= (a + b).push(Seq::<char>::empty()));
            assert(split_on(y, sep) =~= b.push(Seq::<char>::empty()));
            assert((a + b).push(Seq::<char>::empty()) =~= a + b.push(Seq::<char>::empty()));
        } else {
            let ab = a + b;
            assert(split_on(s, sep) == ab.update(ab.len() - 1, ab.last().push(s.last())));
            assert(split_on(y, sep) == b.update(b.len() - 1, b.last().push(y.last())));
            assert(ab.last() == b.last());
            assert(ab.update(ab.len() - 1, ab.last().push(s.last())) =~= a + b.update(
                b.len() - 1,
                b.last().push(y.last()),
            ));
        }
    }
}

/// A character that `s` lacks is lacked by every piece of `s`.
pub proof fn lemma_split_on_pieces_lack(s: Seq<char>, sep: char, c: char)
    requires
        !s.contains(c),
    ensures
        forall|k: int|
            0 <= k < split_on(s, sep).len() ==> !(#[trigger] split_on(s, sep)[k]).contains(c),
    decreases s.len(),
{
    if s.len() > 0 {
        let t = s.drop_last();
        assert(!t.contains(c)) by {
            if t.contains(c) {
                let i = choose|i: int| 0 <= i < t.len() && t[i] == c;
                assert(s[i] == c);
            }
        }
        assert(s.last() != c) by {
            assert(s[s.len() - 1] == s.last());
        }
        lemma_split_on_pieces_lack(t, sep, c);
        lemma_split_on_nonempty(t, sep);
        let init = split_on(t, sep);
        if s.last() != sep {
            let last = init.last().push(s.last());
            assert(!last.contains(c)) by {
                assert(!init[init.len() - 1].contains(c));
                if last.contains(c) {
                    let i = choose|i: int| 0 <= i < last.len() && last[i] == c;
                    if i < last.len() - 1 {
                        assert(init.last()[i] == c);
                    }
                }
            }
            assert forall|k: int|
                0 <= k < split_on(s, sep).len() implies !(#[trigger] split_on(s, sep)[k]).contains(c) by {
                if k < init.len() - 1 {
                    assert(split_on(s, sep)[k] == init[k]);
                }
            }
        } else {
            assert forall|k: int|
                0 <= k < split_on(s, sep).len() implies !(#[trigger] split_on(s, sep)[k]).contains(c) by {
                if k < init.len() {
                    assert(split_on(s, sep)[k] == init[k]);
                } else {
                    assert(split_on(s, sep)[k] =~= Seq::<char>::empty());
                }
            }
        }
    }
}

/// `skip_class(s, k)` is a suffix of `s`.
pub proof fn lemma_skip_class_is_suffix(s: Seq<char>, k: CharClass)
    ensures
        skip_class(s, k).len() <= s.len(),
        skip_class(s, k) == s.skip(s.len() - skip_class(s, k).len()),
    decreases s.len(),
{
    if s.len() > 0 && in_class(k, s[0]) {
        lemma_skip_class_is_suffix(s.drop_first(), k);
        let r = skip_class(s.drop_first(), k);
        assert(s.drop_first().skip(s.len() - 1 - r.len()) =~= s.skip(s.len() - r.len()));
    } else {
        assert(s.skip(0) =~= s);
    }
}

} // verus!
