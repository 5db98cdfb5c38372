//! Character-level text utilities with specifications: whitespace, trimming,
//! unsigned decimal parsing and printing, splitting and joining.
use vstd::prelude::*;

verus! {

// ---------------------------------------------------------------------------
// Conversions between `str`/`String` and character vectors
// ---------------------------------------------------------------------------

/// Appends one character to a string.
///
/// Trusted wrapper around `String::push`, which the standard library documents as
/// appending the given `char` to the end of the `String`.
#[verifier::external_body]
pub(crate) fn push_char(s: &mut String, c: char)
    ensures
        final(s)@ == old(s)@.push(c),
{
    s.push(c);
}

/// The characters of a string slice, in order.
pub fn chars_of(s: &str) -> (r: Vec<char>)
    ensures
        r@ == s@,
{
    let n = s.unicode_len();
    let mut out: Vec<char> = Vec::new();
    let mut i: usize = 0;
    while i < n
        invariant
            n == s@.len(),
            i <= n,
            out@ == s@.subrange(0, i as int),
        decreases n - i,
    {
        let c = s.get_char(i);
        out.push(c);
        i = i + 1;
    }
    out
}

/// Appends every character of `cs` to `out`.
pub fn push_chars(out: &mut String, cs: &[char])
    ensures
        final(out)@ == old(out)@ + cs@,
{
    let mut i: usize = 0;
    while i < cs.len()
        invariant
            i <= cs@.len(),
            out@ == old(out)@ + cs@.subrange(0, i as int),
        decreases cs@.len() - i,
    {
        push_char(out, cs[i]);
        i = i + 1;
        assert(cs@.subrange(0, i as int) =~= cs@.subrange(0, i - 1).push(cs@[i - 1]));
    }
    assert(cs@.subrange(0, cs@.len() as int) =~= cs@);
}

/// Appends every character of `s` to `out`.
pub fn push_str(out: &mut String, s: &str)
    ensures
        final(out)@ == old(out)@ + s@,
{
    let cs = chars_of(s);
    push_chars(out, cs.as_slice());
}

/// Builds a string holding exactly the given characters.
pub fn string_from(cs: &[char]) -> (r: String)
    ensures
        r@ == cs@,
{
    let mut out = String::new();
    push_chars(&mut out, cs);
    assert(out@ =~= cs@);
    out
}

/// Whether two character sequences are equal.
pub fn chars_eq(a: &[char], b: &[char]) -> (r: bool)
    ensures
        r == (a@ == b@),
{
    if a.len() != b.len() {
        return false;
    }
    let mut i: usize = 0;
    while i < a.len()
        invariant
            a@.len() == b@.len(),
            i <= a@.len(),
            forall|j: int| 0 <= j < i ==> a@[j] == b@[j],
        decreases a@.len() - i,
    {
        if a[i] != b[i] {
            return false;
        }
        i = i + 1;
    }
    assert(a@ =~= b@);
    true
}

/// Whether the characters of `a` are those of the string slice `b`.
pub fn chars_eq_str(a: &[char], b: &str) -> (r: bool)
    ensures
        r == (a@ == b@),
{
    let bs = chars_of(b);
    chars_eq(a, bs.as_slice())
}

/// Whether `s` begins with `prefix`.
pub open spec fn has_prefix(s: Seq<char>, prefix: Seq<char>) -> bool {
    prefix.len() <= s.len() && s.subrange(0, prefix.len() as int) == prefix
}

/// Whether `cs` begins with the characters of `prefix`.
pub fn starts_with(cs: &[char], prefix: &[char]) -> (r: bool)
    ensures
        r == has_prefix(cs@, prefix@),
{
    if prefix.len() > cs.len() {
        return false;
    }
    let mut i: usize = 0;
    while i < prefix.len()
        invariant
            prefix@.len() <= cs@.len(),
            i <= prefix@.len(),
            forall|j: int| 0 <= j < i ==> cs@[j] == prefix@[j],
        decreases prefix@.len() - i,
    {
        if cs[i] != prefix[i] {
            assert(cs@.subrange(0, prefix@.len() as int)[i as int] != prefix@[i as int]);
            return false;
        }
        i = i + 1;
    }
    assert(cs@.subrange(0, prefix@.len() as int) =~= prefix@);
    true
}

/// Copies `cs[from..to]` into a fresh vector.
pub fn slice_chars(cs: &[char], from: usize, to: usize) -> (r: Vec<char>)
    requires
        from <= to <= cs@.len(),
    ensures
        r@ == cs@.subrange(from as int, to as int),
{
    let mut out: Vec<char> = Vec::new();
    let mut i: usize = from;
    while i < to
        invariant
            from <= i <= to <= cs@.len(),
            out@ == cs@.subrange(from as int, i as int),
        decreases to - i,
    {
        out.push(cs[i]);
        i = i + 1;
        assert(out@ =~= cs@.subrange(from as int, i as int));
    }
    out
}

// ---------------------------------------------------------------------------
// Whitespace and trimming
// ---------------------------------------------------------------------------

/// Unicode `White_Space`, the property that `char::is_whitespace` tests.
pub open spec fn is_ws(c: char) -> bool {
    ||| ('\u{9}' <= c && c <= '\u{d}')
    ||| c == ' '
    ||| c == '\u{85}'
    ||| c == '\u{a0}'
    ||| c == '\u{1680}'
    ||| ('\u{2000}' <= c && c <= '\u{200a}')
    ||| c == '\u{2028}'
    ||| c == '\u{2029}'
    ||| c == '\u{202f}'
    ||| c == '\u{205f}'
    ||| c == '\u{3000}'
}

/// Whether `c` is a whitespace character in the sense of `is_ws`.
pub fn is_whitespace(c: char) -> (r: bool)
    ensures
        r == is_ws(c),
{
    ('\u{9}' <= c && c <= '\u{d}') || c == ' ' || c == '\u{85}' || c == '\u{a0}' || c == '\u{1680}'
        || ('\u{2000}' <= c && c <= '\u{200a}') || c == '\u{2028}' || c == '\u{2029}' || c
        == '\u{202f}' || c == '\u{205f}' || c == '\u{3000}'
}

/// `s` without its leading whitespace.
pub open spec fn trim_start(s: Seq<char>) -> Seq<char>
    decreases s.len(),
{
    if s.len() > 0 && is_ws(s[0]) {
        trim_start(s.drop_first())
    } else {
        s
    }
}

/// `s` without its trailing whitespace.
pub open spec fn trim_end(s: Seq<char>) -> Seq<char>
    decreases s.len(),
{
    if s.len() > 0 && is_ws(s.last()) {
        trim_end(s.drop_last())
    } else {
        s
    }
}

/// `s` without leading and trailing whitespace (as `str::trim`).
pub open spec fn trim(s: Seq<char>) -> Seq<char> {
    trim_end(trim_start(s))
}

/// The index of the first character of `cs[from..]` that is not whitespace
/// (or `cs.len()`), and the proof that trimming `cs[from..]` at the start gives
/// what follows it.
fn skip_ws_forward(cs: &[char], from: usize) -> (i: usize)
    requires
        from <= cs@.len(),
    ensures
        from <= i <= cs@.len(),
        trim_start(cs@.subrange(from as int, cs@.len() as int)) == cs@.subrange(
            i as int,
            cs@.len() as int,
        ),
{
    let mut i = from;
    while i < cs.len() && is_whitespace(cs[i])
        invariant
            from <= i <= cs@.len(),
            trim_start(cs@.subrange(from as int, cs@.len() as int)) == trim_start(
                cs@.subrange(i as int, cs@.len() as int),
            ),
        decreases cs@.len() - i,
    {
        assert(cs@.subrange(i as int, cs@.len() as int).drop_first() =~= cs@.subrange(
            i + 1,
            cs@.len() as int,
        ));
        i = i + 1;
    }
    i
}

/// The end of the trailing-whitespace-free prefix of `cs[from..to]`.
fn skip_ws_backward(cs: &[char], from: usize, to: usize) -> (j: usize)
    requires
        from <= to <= cs@.len(),
    ensures
        from <= j <= to,
        trim_end(cs@.subrange(from as int, to as int)) == cs@.subrange(from as int, j as int),
{
    let mut j = to;
    while j > from && is_whitespace(cs[j - 1])
        invariant
            from <= j <= to <= cs@.len(),
            trim_end(cs@.subrange(from as int, to as int)) == trim_end(
                cs@.subrange(from as int, j as int),
            ),
        decreases j - from,
    {
        assert(cs@.subrange(from as int, j as int).drop_last() =~= cs@.subrange(
            from as int,
            j - 1,
        ));
        j = j - 1;
    }
    j
}

/// The bounds `(start, end)` such that `cs[start..end]` is `trim(cs)`.
pub fn trim_bounds(cs: &[char]) -> (r: (usize, usize))
    ensures
        r.0 <= r.1 <= cs@.len(),
        trim(cs@) == cs@.subrange(r.0 as int, r.1 as int),
{
    let start = skip_ws_forward(cs, 0);
    assert(cs@.subrange(0, cs@.len() as int) =~= cs@);
    let end = skip_ws_backward(cs, start, cs.len());
    (start, end)
}

/// `trim(cs)` as a new vector.
pub fn trim_chars(cs: &[char]) -> (r: Vec<char>)
    ensures
        r@ == trim(cs@),
{
    let (a, b) = trim_bounds(cs);
    slice_chars(cs, a, b)
}

// ---------------------------------------------------------------------------
// Unsigned decimal numbers
// ---------------------------------------------------------------------------

/// Whether `c` is one of the ASCII digits `0`..`9`.
pub open spec fn is_digit(c: char) -> bool {
    '0' <= c && c <= '9'
}

/// The value of the ASCII digit `c`.
pub open spec fn digit_value(c: char) -> nat {
    (c as int - '0' as int) as nat
}

/// Whether every character of `s` is an ASCII digit.
pub open spec fn all_digits(s: Seq<char>) -> bool {
    forall|i: int| 0 <= i < s.len() ==> is_digit(#[trigger] s[i])
}

/// The number that the decimal digits `s` denote (most significant first).
pub open spec fn digits_value(s: Seq<char>) -> nat
    decreases s.len(),
{
    if s.len() == 0 {
        0
    } else {
        digits_value(s.drop_last()) * 10 + digit_value(s.last())
    }
}

/// The digits of an unsigned number after an optional leading `+`, as the standard
/// library reads them when it parses an unsigned integer.
pub open spec fn unsigned_body(s: Seq<char>) -> Seq<char> {
    if s.len() > 0 && s[0] == '+' {
        s.drop_first()
    } else {
        s
    }
}

/// What `str::parse` gives for an unsigned integer type whose largest value is
/// `max`: an optional `+`, then at least one ASCII digit and nothing else, and a
/// value that fits.
pub open spec fn parse_unsigned_spec(s: Seq<char>, max: nat) -> Option<nat> {
    let body = unsigned_body(s);
    if body.len() == 0 || !all_digits(body) || digits_value(body) > max {
        None
    } else {
        Some(digits_value(body))
    }
}

proof fn lemma_digits_value_prefix(s: Seq<char>, k: int)
    requires
        0 <= k <= s.len(),
    ensures
        digits_value(s.subrange(0, k)) <= digits_value(s),
    decreases s.len() - k,
{
    if k < s.len() {
        lemma_digits_value_prefix(s, k + 1);
        assert(s.subrange(0, k + 1).drop_last() =~= s.subrange(0, k));
    } else {
        assert(s.subrange(0, k) =~= s);
    }
}

/// Parses an unsigned decimal number no larger than `max`, as `str::parse` does for
/// the unsigned integer types.
pub fn parse_unsigned(cs: &[char], max: u64) -> (r: Option<u64>)
    ensures
        match parse_unsigned_spec(cs@, max as nat) {
            Some(v) => r == Some(v as u64),
            None => r is None,
        },
{
    let start: usize = if cs.len() > 0 && cs[0] == '+' { 1 } else { 0 };
    let ghost body = unsigned_body(cs@);
    assert(body =~= cs@.subrange(start as int, cs@.len() as int));
    if start == cs.len() {
        return None;
    }
    let mut value: u64 = 0;
    let mut i: usize = start;
    while i < cs.len()
        invariant
            start <= i <= cs@.len(),
            body == cs@.subrange(start as int, cs@.len() as int),
            body == unsigned_body(cs@),
            body.len() > 0,
            all_digits(cs@.subrange(start as int, i as int)),
            value as nat == digits_value(cs@.subrange(start as int, i as int)),
            value <= max,
        decreases cs@.len() - i,
    {
        let c = cs[i];
        let ghost prefix = cs@.subrange(start as int, i as int);
        let ghost next = cs@.subrange(start as int, i + 1);
        assert(next.drop_last() =~= prefix);
        assert(body[i - start] == c);
        if !('0' <= c && c <= '9') {
            assert(!is_digit(body[(i - start) as int]));
            return None;
        }
        let d = (c as u32 - '0' as u32) as u64;
        let nv: u128 = value as u128 * 10 + d as u128;
        assert(digits_value(next) == nv);
        if nv > max as u128 {
            proof {
                lemma_digits_value_prefix(body, (i + 1 - start) as int);
                assert(body.subrange(0, (i + 1 - start) as int) =~= next);
            }
            return None;
        }
        value = nv as u64;
        i = i + 1;
    }
    Some(value)
}

/// The ASCII digit for `d < 10`.
pub open spec fn digit_char(d: nat) -> char {
    (d + '0' as nat) as char
}

/// The decimal representation of `n`, without leading zeros.
pub open spec fn decimal(n: nat) -> Seq<char>
    decreases n,
{
    if n < 10 {
        seq![digit_char(n)]
    } else {
        decimal(n / 10).push(digit_char(n % 10))
    }
}

/// `s` left-padded with `0` to at least `width` characters, as `{:0width$}`.
pub open spec fn zero_pad(s: Seq<char>, width: nat) -> Seq<char> {
    if s.len() >= width {
        s
    } else {
        Seq::new((width - s.len()) as nat, |i: int| '0') + s
    }
}

/// Appends the decimal representation of `n` to `out`.
pub fn push_decimal(out: &mut String, n: u64)
    ensures
        final(out)@ == old(out)@ + decimal(n as nat),
    decreases n,
{
    if n >= 10 {
        push_decimal(out, n / 10);
    }
    let d = (n % 10) as u8;
    let ch = (48u8 + d) as char;
    assert(ch == digit_char((n % 10) as nat));
    push_char(out, ch);
    proof {
        if n >= 10 {
            assert(decimal(n as nat) == decimal((n / 10) as nat).push(digit_char((n % 10) as nat)));
        }
    }
}


/// `decimal(n)` as a new string.
pub fn decimal_string(n: u64) -> (r: String)
    ensures
        r@ == decimal(n as nat),
{
    let mut out = String::new();
    push_decimal(&mut out, n);
    assert(out@ =~= decimal(n as nat));
    out
}

/// Appends `decimal(n)` padded with zeros to `width` characters.
pub fn push_decimal_padded(out: &mut String, n: u64, width: usize)
    ensures
        final(out)@ == old(out)@ + zero_pad(decimal(n as nat), width as nat),
{
    let digits = decimal_string(n);
    let len = digits.unicode_len();
    let ghost before = out@;
    if len < width {
        let mut k: usize = 0;
        while k < width - len
            invariant
                k <= width - len,
                len < width,
                out@ == before + Seq::new(k as nat, |i: int| '0'),
            decreases width - len - k,
        {
            push_char(out, '0');
            k = k + 1;
            assert(out@ =~= before + Seq::new(k as nat, |i: int| '0'));
        }
    }
    push_str(out, digits.as_str());
    assert(out@ =~= before + zero_pad(decimal(n as nat), width as nat));
}

// ---------------------------------------------------------------------------
// Searching, splitting and joining
// ---------------------------------------------------------------------------

/// The index of the first occurrence of `c` in `s`, or `s.len()` when there is none.
pub open spec fn first_index_of(s: Seq<char>, c: char) -> nat
    decreases s.len(),
{
    if s.len() == 0 {
        0
    } else if s[0] == c {
        0
    } else {
        1 + first_index_of(s.drop_first(), c)
    }
}

proof fn lemma_first_index_bound(s: Seq<char>, c: char)
    ensures
        first_index_of(s, c) <= s.len(),
        first_index_of(s, c) < s.len() ==> s[first_index_of(s, c) as int] == c,
        forall|j: int| 0 <= j < first_index_of(s, c) ==> s[j] != c,
    decreases s.len(),
{
    if s.len() > 0 && s[0] != c {
        lemma_first_index_bound(s.drop_first(), c);
        assert forall|j: int| 0 <= j < first_index_of(s, c) implies s[j] != c by {
            if j > 0 {
                assert(s[j] == s.drop_first()[j - 1]);
            }
        }
    }
}

/// The index in `cs` of the first `c` at or after `from` (or `cs.len()`).
pub fn find_char(cs: &[char], from: usize, c: char) -> (r: usize)
    requires
        from <= cs@.len(),
    ensures
        from <= r <= cs@.len(),
        r == from + first_index_of(cs@.subrange(from as int, cs@.len() as int), c),
        r < cs@.len() ==> cs@[r as int] == c,
        forall|j: int| from <= j < r ==> cs@[j] != c,
{
    let mut i = from;
    while i < cs.len() && cs[i] != c
        invariant
            from <= i <= cs@.len(),
            from + first_index_of(cs@.subrange(from as int, cs@.len() as int), c) == i
                + first_index_of(cs@.subrange(i as int, cs@.len() as int), c),
            forall|j: int| from <= j < i ==> cs@[j] != c,
        decreases cs@.len() - i,
    {
        assert(cs@.subrange(i as int, cs@.len() as int).drop_first() =~= cs@.subrange(
            i + 1,
            cs@.len() as int,
        ));
        i = i + 1;
    }
    i
}

/// The character sequences that a vector of character vectors holds.
pub open spec fn views_of(v: Seq<Vec<char>>) -> Seq<Seq<char>> {
    Seq::new(v.len(), |i: int| v[i]@)
}

/// The pieces of `s` between the occurrences of `sep`, as `str::split` gives them.
pub open spec fn split_on(s: Seq<char>, sep: char) -> Seq<Seq<char>>
    decreases s.len(),
{
    if s.len() == 0 {
        seq![Seq::empty()]
    } else {
        let p = split_on(s.drop_last(), sep);
        if s.last() == sep {
            p.push(Seq::empty())
        } else {
            p.update(p.len() - 1, p.last().push(s.last()))
        }
    }
}

proof fn lemma_split_on_nonempty(s: Seq<char>, sep: char)
    ensures
        split_on(s, sep).len() >= 1,
    decreases s.len(),
{
    if s.len() > 0 {
        lemma_split_on_nonempty(s.drop_last(), sep);
    }
}

/// `split_on(cs, sep)` as vectors.
pub fn split_chars(cs: &[char], sep: char) -> (r: Vec<Vec<char>>)
    ensures
        views_of(r@) == split_on(cs@, sep),
{
    let mut out: Vec<Vec<char>> = Vec::new();
    let mut cur: Vec<char> = Vec::new();
    let mut i: usize = 0;
    assert(cs@.subrange(0, 0) =~= Seq::<char>::empty());
    assert(views_of(out@).push(cur@) =~= split_on(cs@.subrange(0, 0), sep));
    while i < cs.len()
        invariant
            i <= cs@.len(),
            views_of(out@).push(cur@) == split_on(cs@.subrange(0, i as int), sep),
        decreases cs@.len() - i,
    {
        let c = cs[i];
        let ghost prefix = cs@.subrange(0, i + 1);
        assert(prefix.drop_last() =~= cs@.subrange(0, i as int));
        proof {
            lemma_split_on_nonempty(prefix.drop_last(), sep);
        }
        let ghost old_views = views_of(out@);
        let ghost old_cur = cur@;
        if c == sep {
            let done = cur;
            out.push(done);
            cur = Vec::new();
            assert(views_of(out@) =~= old_views.push(old_cur));
            assert(views_of(out@).push(cur@) =~= split_on(prefix, sep));
        } else {
            cur.push(c);
            assert(views_of(out@) =~= old_views);
            assert(views_of(out@).push(cur@) =~= split_on(prefix, sep));
        }
        i = i + 1;
    }
    let ghost old_views = views_of(out@);
    let ghost old_cur = cur@;
    let last = cur;
    out.push(last);
    assert(cs@.subrange(0, cs@.len() as int) =~= cs@);
    assert(views_of(out@) =~= old_views.push(old_cur));
    out
}

/// The maximal runs of non-whitespace characters of `s`, as `str::split_whitespace`
/// gives them.
pub open spec fn words(s: Seq<char>) -> Seq<Seq<char>>
    decreases s.len(),
{
    if s.len() == 0 {
        Seq::empty()
    } else {
        let p = words(s.drop_last());
        let c = s.last();
        if is_ws(c) {
            p
        } else if s.len() == 1 || is_ws(s[s.len() - 2]) {
            p.push(seq![c])
        } else {
            p.update(p.len() - 1, p.last().push(c))
        }
    }
}

/// `words(cs)` as vectors.
pub fn split_words(cs: &[char]) -> (r: Vec<Vec<char>>)
    ensures
        views_of(r@) == words(cs@),
{
    let mut out: Vec<Vec<char>> = Vec::new();
    let mut cur: Vec<char> = Vec::new();
    let mut in_word = false;
    let mut i: usize = 0;
    assert(views_of(out@) =~= words(cs@.subrange(0, 0)));
    while i < cs.len()
        invariant
            i <= cs@.len(),
            in_word == (i > 0 && !is_ws(cs@[i - 1])),
            in_word ==> cur@.len() > 0,
            !in_word ==> cur@.len() == 0,
            in_word ==> views_of(out@).push(cur@) == words(cs@.subrange(0, i as int)),
            !in_word ==> views_of(out@) == words(cs@.subrange(0, i as int)),
        decreases cs@.len() - i,
    {
        let c = cs[i];
        let ghost prefix = cs@.subrange(0, i + 1);
        assert(prefix.drop_last() =~= cs@.subrange(0, i as int));
        let ghost old_views = views_of(out@);
        let ghost old_cur = cur@;
        let ghost old_in_word = in_word;
        if is_whitespace(c) {
            if in_word {
                let done = cur;
                out.push(done);
                cur = Vec::new();
                assert(views_of(out@) =~= old_views.push(old_cur));
            }
            in_word = false;
            assert(views_of(out@) =~= words(prefix));
        } else {
            if i > 0 {
                assert(prefix[prefix.len() - 2] == cs@[i - 1]);
            }
            assert(prefix.last() == c);
            cur.push(c);
            in_word = true;
            assert(views_of(out@) =~= old_views);
            proof { if old_in_word {
                let p = old_views.push(old_cur);
                assert(words(prefix) == p.update(p.len() - 1, p.last().push(c)));
                assert(cur@ =~= old_cur.push(c));
                assert(views_of(out@).push(cur@) =~= words(prefix));
            } else {
                assert(words(prefix) == old_views.push(seq![c]));
                assert(cur@ =~= seq![c]);
                assert(views_of(out@).push(cur@) =~= words(prefix));
            } }
        }
        i = i + 1;
    }
    assert(cs@.subrange(0, cs@.len() as int) =~= cs@);
    let ghost old_views = views_of(out@);
    let ghost old_cur = cur@;
    if in_word {
        let last = cur;
        out.push(last);
        assert(views_of(out@) =~= old_views.push(old_cur));
    }
    assert(views_of(out@) =~= words(cs@));
    out
}

/// The pieces joined with `sep` between consecutive pieces, as `[T]::join`.
pub open spec fn join_with(parts: Seq<Seq<char>>, sep: Seq<char>) -> Seq<char>
    decreases parts.len(),
{
    if parts.len() == 0 {
        Seq::empty()
    } else if parts.len() == 1 {
        parts[0]
    } else {
        join_with(parts.drop_last(), sep) + sep + parts.last()
    }
}

/// `join_with(parts[from..], [sep])` as a new vector.
pub fn join_from(parts: &Vec<Vec<char>>, from: usize, sep: char) -> (r: Vec<char>)
    requires
        from <= parts@.len(),
    ensures
        r@ == join_with(views_of(parts@).subrange(from as int, parts@.len() as int), seq![sep]),
{
    let ghost all = views_of(parts@);
    let mut out: Vec<char> = Vec::new();
    let mut i = from;
    assert(all.subrange(from as int, from as int) =~= Seq::<Seq<char>>::empty());
    while i < parts.len()
        invariant
            from <= i <= parts@.len(),
            all == views_of(parts@),
            out@ == join_with(all.subrange(from as int, i as int), seq![sep]),
        decreases parts@.len() - i,
    {
        let ghost piece = all.subrange(from as int, i + 1);
        assert(piece.drop_last() =~= all.subrange(from as int, i as int));
        assert(piece.last() == parts@[i as int]@);
        if i > from {
            out.push(sep);
        }
        let mut k: usize = 0;
        let ghost before = out@;
        while k < parts[i].len()
            invariant
                i < parts@.len(),
                k <= parts@[i as int]@.len(),
                out@ == before + parts@[i as int]@.subrange(0, k as int),
            decreases parts@[i as int]@.len() - k,
        {
            out.push(parts[i][k]);
            k = k + 1;
            assert(out@ =~= before + parts@[i as int]@.subrange(0, k as int));
        }
        assert(parts@[i as int]@.subrange(0, k as int) =~= parts@[i as int]@);
        if i > from {
            assert(out@ =~= join_with(piece, seq![sep]));
        } else {
            assert(out@ =~= join_with(piece, seq![sep]));
        }
        i = i + 1;
    }
    out
}


// ---------------------------------------------------------------------------
// Facts relating trimming and words
// ---------------------------------------------------------------------------

proof fn lemma_trim_start_suffix(s: Seq<char>)
    ensures
        trim_start(s).len() <= s.len(),
        trim_start(s) == s.subrange(s.len() - trim_start(s).len(), s.len() as int),
    decreases s.len(),
{
    if s.len() > 0 && is_ws(s[0]) {
        lemma_trim_start_suffix(s.drop_first());
        let t = trim_start(s.drop_first());
        assert(s.drop_first().subrange(s.drop_first().len() - t.len(), s.drop_first().len() as int)
            =~= s.subrange(s.len() - t.len(), s.len() as int));
    } else {
        assert(s.subrange(0, s.len() as int) =~= s);
    }
}

proof fn lemma_trim_end_nonblank(s: Seq<char>) -> (i: int)
    requires
        trim_end(s).len() > 0,
    ensures
        0 <= i < s.len(),
        !is_ws(s[i]),
    decreases s.len(),
{
    if s.len() > 0 && is_ws(s.last()) {
        let j = lemma_trim_end_nonblank(s.drop_last());
        j
    } else {
        (s.len() - 1) as int
    }
}

proof fn lemma_words_of_nonblank(s: Seq<char>, i: int)
    requires
        0 <= i < s.len(),
        !is_ws(s[i]),
    ensures
        words(s).len() > 0,
    decreases s.len(),
{
    let c = s.last();
    if is_ws(c) {
        assert(s.drop_last()[i] == s[i]);
        lemma_words_of_nonblank(s.drop_last(), i);
    } else if s.len() == 1 || is_ws(s[s.len() - 2]) {
    } else {
        assert(s.drop_last()[s.len() - 2] == s[s.len() - 2]);
        lemma_words_of_nonblank(s.drop_last(), s.len() - 2);
    }
}

/// A line that is not blank once trimmed has at least one word.
pub proof fn lemma_trimmed_nonblank_has_words(s: Seq<char>)
    requires
        trim(s).len() > 0,
    ensures
        words(s).len() > 0,
{
    let t = trim_start(s);
    lemma_trim_start_suffix(s);
    let j = lemma_trim_end_nonblank(t);
    let k = s.len() - t.len();
    assert(s[k + j] == t[j]);
    lemma_words_of_nonblank(s, k + j);
}

/// The lines of `lines` that are not blank once trimmed, in order.
pub open spec fn keep_nonblank(lines: Seq<Seq<char>>) -> Seq<Seq<char>>
    decreases lines.len(),
{
    if lines.len() == 0 {
        Seq::empty()
    } else {
        let p = keep_nonblank(lines.drop_last());
        if trim(lines.last()).len() > 0 {
            p.push(lines.last())
        } else {
            p
        }
    }
}

/// Every line that `keep_nonblank` keeps is not blank.
pub proof fn lemma_keep_nonblank(lines: Seq<Seq<char>>)
    ensures
        forall|k: int| 0 <= k < keep_nonblank(lines).len() ==> trim(
            #[trigger] keep_nonblank(lines)[k],
        ).len() > 0,
    decreases lines.len(),
{
    if lines.len() > 0 {
        lemma_keep_nonblank(lines.drop_last());
        let p = keep_nonblank(lines.drop_last());
        assert forall|k: int| 0 <= k < keep_nonblank(lines).len() implies trim(
            #[trigger] keep_nonblank(lines)[k],
        ).len() > 0 by {
            if k < p.len() {
                assert(keep_nonblank(lines)[k] == p[k]);
            }
        }
    }
}

/// The lines of `text` (split at `\n`) that are not blank.
pub open spec fn nonblank_lines(text: Seq<char>) -> Seq<Seq<char>> {
    keep_nonblank(split_on(text, '\n'))
}

/// `nonblank_lines(cs)` as vectors.
pub fn nonblank_lines_of(cs: &[char]) -> (r: Vec<Vec<char>>)
    ensures
        views_of(r@) == nonblank_lines(cs@),
{
    let all = split_chars(cs, '\n');
    let ghost lines = views_of(all@);
    let mut out: Vec<Vec<char>> = Vec::new();
    let mut i: usize = 0;
    assert(lines.subrange(0, 0) =~= Seq::<Seq<char>>::empty());
    assert(views_of(out@) =~= keep_nonblank(lines.subrange(0, 0)));
    while i < all.len()
        invariant
            i <= all@.len(),
            lines == views_of(all@),
            views_of(out@) == keep_nonblank(lines.subrange(0, i as int)),
        decreases all@.len() - i,
    {
        let ghost prefix = lines.subrange(0, i + 1);
        assert(prefix.drop_last() =~= lines.subrange(0, i as int));
        assert(prefix.last() == all@[i as int]@);
        let t = trim_chars(all[i].as_slice());
        let ghost old_views = views_of(out@);
        if t.len() > 0 {
            let line = slice_chars(all[i].as_slice(), 0, all[i].len());
            assert(line@ =~= all@[i as int]@);
            out.push(line);
            assert(views_of(out@) =~= old_views.push(prefix.last()));
        } else {
            assert(views_of(out@) =~= old_views);
        }
        i = i + 1;
    }
    assert(lines.subrange(0, lines.len() as int) =~= lines);
    out
}

} // verus!
