//! The download folder as the file browser shows it: human-readable sizes, relative
//! ids, and folders and files ordered by their modification time.
use vstd::prelude::*;
use vstd::arithmetic::div_mod::{lemma_div_denominator, lemma_fundamental_div_mod};
use crate::text::{chars_of, decimal, push_char, push_decimal, push_decimal_padded, push_str, string_from, zero_pad};

verus! {

// ---------------------------------------------------------------------------
// Sizes
// ---------------------------------------------------------------------------

/// `2^e`.
pub open spec fn two_pow(e: nat) -> nat
    decreases e,
{
    if e == 0 {
        1
    } else {
        2 * two_pow((e - 1) as nat)
    }
}

/// How many low bits of `n` fall outside the 53-bit significand of a 64-bit float.
pub open spec fn excess_bits(n: nat) -> nat
    decreases n,
{
    if n < 0x20_0000_0000_0000 {
        0
    } else {
        1 + excess_bits(n / 2)
    }
}

/// Whether a quotient `q` with remainder `r` of a division by `d` rounds up when
/// rounding to nearest, ties to even.
pub open spec fn rounds_up(q: nat, r: nat, d: nat) -> bool {
    2 * r > d || (2 * r == d && q % 2 == 1)
}

/// The 64-bit float nearest to `n` (ties to even), which is what `n as f64` gives.
pub open spec fn nearest_double(n: nat) -> nat {
    let d = two_pow(excess_bits(n));
    let q = n / d;
    if rounds_up(q, n % d, d) {
        (q + 1) * d
    } else {
        q * d
    }
}

/// `v / d` in hundredths, rounded to nearest, ties to even.
pub open spec fn hundredths(v: nat, d: nat) -> nat {
    let q = (v * 100) / d;
    if rounds_up(q, (v * 100) % d, d) {
        q + 1
    } else {
        q
    }
}

/// `h` hundredths written with two decimals.
pub open spec fn two_decimals(h: nat) -> Seq<char> {
    decimal(h / 100) + seq!['.'] + zero_pad(decimal(h % 100), 2)
}

/// A byte count as the file browser shows it: `N B` below 1 KiB, else the size in
/// KB, MB or GB (powers of 1024) with two decimals, computed as `{:.2}` prints the
/// 64-bit float quotient.
pub open spec fn size_text(size: nat) -> Seq<char> {
    if size >= 0x4000_0000 {
        two_decimals(hundredths(nearest_double(size), 0x4000_0000)) + " GB"@
    } else if size >= 0x10_0000 {
        two_decimals(hundredths(nearest_double(size), 0x10_0000)) + " MB"@
    } else if size >= 0x400 {
        two_decimals(hundredths(nearest_double(size), 0x400)) + " KB"@
    } else {
        decimal(size) + " B"@
    }
}

proof fn lemma_two_pow_pos(e: nat)
    ensures
        two_pow(e) >= 1,
    decreases e,
{
    if e > 0 {
        lemma_two_pow_pos((e - 1) as nat);
    }
}

/// A power of two no larger than `2^11`.
pub open spec fn small_pow2(d: nat) -> bool {
    d == 1 || d == 2 || d == 4 || d == 8 || d == 16 || d == 32 || d == 64 || d == 128 || d == 256
        || d == 512 || d == 1024 || d == 2048
}

fn nearest_double_of(n: u64) -> (r: u128)
    ensures
        r as nat == nearest_double(n as nat),
        r <= 0x1_0000_0000_0000_0000,
{
    let mut m: u64 = n;
    let mut d: u128 = 1;
    let ghost mut e: nat = 0;
    assert(n as nat / 1 == n as nat);
    while m >= 0x20_0000_0000_0000
        invariant
            d as nat == two_pow(e),
            small_pow2(d as nat),
            m as nat == (n as nat) / (d as nat),
            excess_bits(n as nat) == e + excess_bits(m as nat),
        decreases m,
    {
        proof {
            lemma_div_denominator(n as int, d as int, 2);
            assert(m * d <= n) by (nonlinear_arith)
                requires
                    m as nat == (n as nat) / (d as nat),
                    1 <= d,
            {
            }
            assert(d * 0x20_0000_0000_0000 <= n) by (nonlinear_arith)
                requires
                    m * d <= n,
                    m >= 0x20_0000_0000_0000,
                    d >= 1,
            {
            }
            assert(d <= 1024);
        }
        m = m / 2;
        d = d * 2;
        proof {
            e = e + 1;
        }
    }
    let q: u128 = m as u128;
    assert(q * d <= n) by (nonlinear_arith)
        requires
            q as nat == (n as nat) / (d as nat),
            1 <= d,
    {
    }
    let base: u128 = q * d;
    let r: u128 = n as u128 - base;
    proof {
        lemma_fundamental_div_mod(n as int, d as int);
        assert(excess_bits(m as nat) == 0);
        assert(r as nat == (n as nat) % (d as nat));
    }
    if 2 * r > d || (2 * r == d && q % 2 == 1) {
        assert((q + 1) * d <= 0x1_0000_0000_0000_0000) by (nonlinear_arith)
            requires
                q + 1 <= 0x20_0000_0000_0000,
                1 <= d <= 2048,
        {
        }
        (q + 1) * d
    } else {
        base
    }
}

fn push_hundredths(out: &mut String, v: u128, d: u128)
    requires
        v <= 0x1_0000_0000_0000_0000,
        d == 0x400 || d == 0x10_0000 || d == 0x4000_0000,
    ensures
        final(out)@ == old(out)@ + two_decimals(hundredths(v as nat, d as nat)),
{
    let scaled: u128 = v * 100;
    let q: u128 = scaled / d;
    let r: u128 = scaled % d;
    let h: u128 = if 2 * r > d || (2 * r == d && q % 2 == 1) {
        q + 1
    } else {
        q
    };
    assert(h as nat == hundredths(v as nat, d as nat));
    assert(h / 100 <= u64::MAX) by (nonlinear_arith)
        requires
            h <= q + 1,
            q == scaled / d,
            scaled == v * 100,
            v <= 0x1_0000_0000_0000_0000,
            d >= 0x400,
    {
    }
    push_decimal(out, (h / 100) as u64);
    push_char(out, '.');
    push_decimal_padded(out, (h % 100) as u64, 2);
    assert(final(out)@ =~= old(out)@ + two_decimals(h as nat));
}

/// Formats a file size for the file browser (see `size_text`).
pub fn format_size(size: u64) -> (r: String)
    ensures
        r@ == size_text(size as nat),
{
    let mut out = String::new();
    if size >= 0x4000_0000 {
        let v = nearest_double_of(size);
        push_hundredths(&mut out, v, 0x4000_0000);
        push_str(&mut out, " GB");
    } else if size >= 0x10_0000 {
        let v = nearest_double_of(size);
        push_hundredths(&mut out, v, 0x10_0000);
        push_str(&mut out, " MB");
    } else if size >= 0x400 {
        let v = nearest_double_of(size);
        push_hundredths(&mut out, v, 0x400);
        push_str(&mut out, " KB");
    } else {
        push_decimal(&mut out, size);
        push_str(&mut out, " B");
    }
    assert(out@ =~= size_text(size as nat));
    out
}

/// The id of the entry `child` of the folder `parent`: `child` at the root (whose id
/// is empty), `parent/child` below it.
pub open spec fn entry_id(parent: Seq<char>, child: Seq<char>) -> Seq<char> {
    if parent.len() == 0 {
        child
    } else {
        parent + "/"@ + child
    }
}

/// The id of an entry of a folder: `child` at the root, `parent/child` below it.
pub fn relative_id_path(parent: &str, child: &str) -> (r: String)
    ensures
        r@ == entry_id(parent@, child@),
{
    let mut out = string_from(chars_of(parent).as_slice());
    if parent.unicode_len() > 0 {
        push_char(&mut out, '/');
        assert(out@ =~= parent@ + "/"@) by {
            reveal_strlit("/");
        }
    }
    push_str(&mut out, child);
    out
}


// ---------------------------------------------------------------------------
// Folder listing
// ---------------------------------------------------------------------------

/// A file of the download folder.
pub struct FileInfo {
    /// The path relative to the download folder, such as `folder/sub/file.mp4`.
    pub id: String,
    pub name: String,
    /// The size as `format_size` writes it.
    pub size: String,
    /// The modification time, written `YYYY-MM-DD HH:MM`.
    pub updated_at: String,
}

/// A folder of the download folder, with what it holds.
pub struct FolderInfo {
    /// The path relative to the download folder.
    pub id: String,
    pub name: String,
    /// How many files the folder holds, sub-folders included.
    pub file_count: usize,
    /// The latest modification time of the folder and of everything in it.
    pub updated_at: String,
    pub folders: Vec<FolderInfo>,
    pub files: Vec<FileInfo>,
}

/// Something the file browser orders by its modification time.
pub trait Dated {
    spec fn date(&self) -> Seq<char>;

    fn date_text(&self) -> (r: &str)
        ensures
            r@ == self.date(),
    ;
}

impl Dated for FileInfo {
    open spec fn date(&self) -> Seq<char> {
        self.updated_at@
    }

    fn date_text(&self) -> (r: &str) {
        self.updated_at.as_str()
    }
}

impl Dated for FolderInfo {
    open spec fn date(&self) -> Seq<char> {
        self.updated_at@
    }

    fn date_text(&self) -> (r: &str) {
        self.updated_at.as_str()
    }
}

/// `a` comes strictly before `b` in the order of Rust strings: character by
/// character by code point (the order of their UTF-8 bytes), a proper prefix first.
pub open spec fn text_before(a: Seq<char>, b: Seq<char>) -> bool
    decreases a.len(),
{
    if b.len() == 0 {
        false
    } else if a.len() == 0 {
        true
    } else if a[0] != b[0] {
        (a[0] as int) < (b[0] as int)
    } else {
        text_before(a.drop_first(), b.drop_first())
    }
}

/// Whether `a` sorts strictly before `b` (see `text_before`).
pub fn date_before(a: &str, b: &str) -> (r: bool)
    ensures
        r == text_before(a@, b@),
{
    let ac = chars_of(a);
    let bc = chars_of(b);
    let mut i: usize = 0;
    assert(a@.skip(0) =~= a@);
    assert(b@.skip(0) =~= b@);
    while i < ac.len() && i < bc.len() && ac[i] == bc[i]
        invariant
            ac@ == a@,
            bc@ == b@,
            i <= ac@.len(),
            i <= bc@.len(),
            text_before(a@, b@) == text_before(a@.skip(i as int), b@.skip(i as int)),
        decreases ac@.len() - i,
    {
        assert(a@.skip(i as int).drop_first() =~= a@.skip(i + 1));
        assert(b@.skip(i as int).drop_first() =~= b@.skip(i + 1));
        i = i + 1;
    }
    if i == bc.len() {
        assert(b@.skip(i as int).len() == 0);
        false
    } else if i == ac.len() {
        assert(a@.skip(i as int).len() == 0);
        true
    } else {
        assert(a@.skip(i as int)[0] == a@[i as int]);
        assert(b@.skip(i as int)[0] == b@[i as int]);
        ac[i] < bc[i]
    }
}

proof fn lemma_before_irreflexive(a: Seq<char>)
    ensures
        !text_before(a, a),
    decreases a.len(),
{
    if a.len() > 0 {
        lemma_before_irreflexive(a.drop_first());
    }
}

proof fn lemma_before_transitive(a: Seq<char>, b: Seq<char>, c: Seq<char>)
    requires
        text_before(a, b),
        text_before(b, c),
    ensures
        text_before(a, c),
    decreases a.len(),
{
    if a.len() > 0 && a[0] == b[0] && b[0] == c[0] {
        lemma_before_transitive(a.drop_first(), b.drop_first(), c.drop_first());
    }
}

proof fn lemma_before_total(a: Seq<char>, b: Seq<char>)
    ensures
        a == b || text_before(a, b) || text_before(b, a),
    decreases a.len(),
{
    if a.len() > 0 && b.len() > 0 && a[0] == b[0] {
        lemma_before_total(a.drop_first(), b.drop_first());
        if a.drop_first() == b.drop_first() {
            assert(a =~= seq![a[0]] + a.drop_first());
            assert(b =~= seq![b[0]] + b.drop_first());
        }
    } else if a.len() == 0 && b.len() == 0 {
        assert(a =~= b);
    }
}

/// Where an entry dated `d` goes into the newest-first list `s`: after every
/// entry that is not older than it.
pub open spec fn insert_position<T: Dated>(s: Seq<T>, d: Seq<char>) -> nat
    decreases s.len(),
{
    if s.len() == 0 {
        0
    } else if text_before(s[0].date(), d) {
        0
    } else {
        1 + insert_position(s.drop_first(), d)
    }
}

/// `s` ordered newest first, entries of equal time in their order in `s` (the
/// stable sort by descending modification time).
pub open spec fn newest_first<T: Dated>(s: Seq<T>) -> Seq<T>
    decreases s.len(),
{
    if s.len() == 0 {
        s
    } else {
        let rest = newest_first(s.drop_last());
        rest.insert(insert_position(rest, s.last().date()) as int, s.last())
    }
}

/// No entry of `s` is newer than an entry before it.
pub open spec fn is_newest_first<T: Dated>(s: Seq<T>) -> bool {
    forall|i: int, j: int| 0 <= i < j < s.len() ==> !text_before(#[trigger] s[i].date(), #[trigger] s[j].date())
}

proof fn lemma_insert_position<T: Dated>(s: Seq<T>, d: Seq<char>)
    ensures
        insert_position(s, d) <= s.len(),
        forall|k: int| 0 <= k < insert_position(s, d) ==> !text_before(#[trigger] s[k].date(), d),
        insert_position(s, d) < s.len() ==> text_before(s[insert_position(s, d) as int].date(), d),
    decreases s.len(),
{
    if s.len() > 0 && !text_before(s[0].date(), d) {
        lemma_insert_position(s.drop_first(), d);
        assert forall|k: int| 0 <= k < insert_position(s, d) implies !text_before(#[trigger] s[k].date(), d) by {
            if k > 0 {
                assert(s[k] == s.drop_first()[k - 1]);
            }
        }
    }
}

proof fn lemma_insert_keeps_order<T: Dated>(s: Seq<T>, x: T)
    requires
        is_newest_first(s),
    ensures
        is_newest_first(s.insert(insert_position(s, x.date()) as int, x)),
{
    let p = insert_position(s, x.date()) as int;
    lemma_insert_position(s, x.date());
    let r = s.insert(p, x);
    assert forall|i: int, j: int| 0 <= i < j < r.len() implies !text_before(#[trigger] r[i].date(), #[trigger] r[j].date()) by {
        if j == p {
            assert(r[i] == s[i]);
        } else if i == p {
            // r[j] is s[j - 1], no newer than s[p], which is older than x.
            assert(r[j] == s[j - 1]);
            assert(text_before(s[p].date(), x.date()));
            if j - 1 > p {
                assert(!text_before(s[p].date(), s[j - 1].date()));
                lemma_before_total(s[p].date(), s[j - 1].date());
                if s[j - 1].date() != s[p].date() {
                    lemma_before_transitive(s[j - 1].date(), s[p].date(), x.date());
                }
            }
            if text_before(x.date(), s[j - 1].date()) {
                lemma_before_transitive(x.date(), s[j - 1].date(), x.date());
                lemma_before_irreflexive(x.date());
            }
        } else {
            let si = if i < p { i } else { i - 1 };
            let sj = if j < p { j } else { j - 1 };
            assert(r[i] == s[si]);
            assert(r[j] == s[sj]);
        }
    }
}

/// The newest-first order is sorted by descending modification time and holds
/// exactly the entries it was given.
pub proof fn law_newest_first<T: Dated>(s: Seq<T>)
    ensures
        is_newest_first(newest_first(s)),
        newest_first(s).to_multiset() =~= s.to_multiset(),
    decreases s.len(),
{
    if s.len() > 0 {
        let rest = newest_first(s.drop_last());
        law_newest_first(s.drop_last());
        lemma_insert_keeps_order(rest, s.last());
        lemma_insert_position(rest, s.last().date());
        let p = insert_position(rest, s.last().date()) as int;
        vstd::seq_lib::to_multiset_insert(rest, p, s.last());
        assert(s =~= s.drop_last().push(s.last()));
        vstd::seq_lib::to_multiset_build(s.drop_last(), s.last());
    }
}


/// How many entries of `r` are not older than `d`.
pub open spec fn count_not_older<T: Dated>(r: Seq<T>, d: Seq<char>) -> nat
    decreases r.len(),
{
    if r.len() == 0 {
        0
    } else if text_before(r.last().date(), d) {
        count_not_older(r.drop_last(), d)
    } else {
        count_not_older(r.drop_last(), d) + 1
    }
}

/// The entries of the newest-first list `r` put back in the order they were given in,
/// whose times, in that order, were `ds`: the last of them is the last entry of `r` not
/// older than it, and so on backwards (see `law_restore_order`).
pub open spec fn restore_order<T: Dated>(r: Seq<T>, ds: Seq<Seq<char>>) -> Seq<T>
    decreases ds.len(),
{
    if ds.len() == 0 {
        Seq::empty()
    } else {
        let p = count_not_older(r, ds.last()) - 1;
        restore_order(r.remove(p), ds.drop_last()).push(r[p])
    }
}

proof fn lemma_count_not_older<T: Dated>(r: Seq<T>, d: Seq<char>, p: int)
    requires
        -1 <= p < r.len(),
        forall|k: int| 0 <= k < r.len() ==> (!text_before(#[trigger] r[k].date(), d) <==> k <= p),
    ensures
        count_not_older(r, d) == p + 1,
    decreases r.len(),
{
    if r.len() > 0 {
        let q = if p == r.len() - 1 { p - 1 } else { p };
        assert forall|k: int| 0 <= k < r.drop_last().len() implies
            (!text_before(#[trigger] r.drop_last()[k].date(), d) <==> k <= q) by {
            assert(r.drop_last()[k] == r[k]);
        }
        lemma_count_not_older(r.drop_last(), d, q);
    }
}

/// Sorting newest first loses nothing: the entries given are had back, in the order
/// given, from the ordered list and the times they had in that order.
pub proof fn law_restore_order<T: Dated>(s: Seq<T>)
    ensures
        restore_order(newest_first(s), dates_of(s)) == s,
    decreases s.len(),
{
    if s.len() > 0 {
        let s0 = s.drop_last();
        let x = s.last();
        let d = x.date();
        let rest = newest_first(s0);
        law_newest_first(s0);
        lemma_insert_position(rest, d);
        let p = insert_position(rest, d) as int;
        let r = newest_first(s);
        assert(r == rest.insert(p, x));
        lemma_before_irreflexive(d);
        assert forall|k: int| 0 <= k < r.len() implies (!text_before(#[trigger] r[k].date(), d) <==> k <= p) by {
            if k < p {
                assert(r[k] == rest[k]);
            } else if k > p {
                assert(r[k] == rest[k - 1]);
                if k - 1 > p {
                    assert(!text_before(rest[p].date(), rest[k - 1].date()));
                    lemma_before_total(rest[p].date(), rest[k - 1].date());
                    if rest[k - 1].date() != rest[p].date() {
                        lemma_before_transitive(rest[k - 1].date(), rest[p].date(), d);
                    }
                }
            }
        }
        lemma_count_not_older(r, d, p);
        assert(r.remove(p) =~= rest);
        assert(dates_of(s).drop_last() =~= dates_of(s0));
        law_restore_order(s0);
        assert(s =~= s0.push(x));
    }
}

proof fn lemma_insert_position_at<T: Dated>(s: Seq<T>, d: Seq<char>, j: nat)
    requires
        j <= s.len(),
        forall|k: int| 0 <= k < j ==> !text_before(#[trigger] s[k].date(), d),
        j < s.len() ==> text_before(s[j as int].date(), d),
    ensures
        insert_position(s, d) == j,
    decreases j,
{
    if j > 0 {
        assert(!text_before(s[0].date(), d));
        assert forall|k: int| 0 <= k < j - 1 implies !text_before(#[trigger] s.drop_first()[k].date(), d) by {
            assert(s.drop_first()[k] == s[k + 1]);
        }
        if j < s.len() {
            assert(s.drop_first()[j - 1] == s[j as int]);
        }
        lemma_insert_position_at(s.drop_first(), d, (j - 1) as nat);
    }
}

/// Orders entries newest first, entries of equal time keeping their order: the
/// stable sort by descending modification time.
pub fn sort_newest_first<T: Dated>(items: Vec<T>) -> (r: Vec<T>)
    ensures
        r@ == newest_first(items@),
        is_newest_first(r@),
        r@.to_multiset() == items@.to_multiset(),
{
    let ghost input = items@;
    let mut rest = items;
    let total = rest.len();
    let mut out: Vec<T> = Vec::new();
    let mut n: usize = 0;
    assert(input.skip(0) =~= input);
    assert(input.take(0) =~= Seq::<T>::empty());
    while rest.len() > 0
        invariant
            n + rest@.len() == total,
            total == input.len(),
            rest@ == input.skip(n as int),
            out@ == newest_first(input.take(n as int)),
        decreases rest@.len(),
    {
        let x = rest.remove(0);
        let d = x.date_text();
        let mut j: usize = 0;
        while j < out.len() && !date_before(out[j].date_text(), d)
            invariant
                j <= out@.len(),
                d@ == x.date(),
                forall|k: int| 0 <= k < j ==> !text_before(#[trigger] out@[k].date(), x.date()),
            decreases out@.len() - j,
        {
            j = j + 1;
        }
        proof {
            lemma_insert_position_at(out@, x.date(), j as nat);
            assert(input.take(n + 1).drop_last() =~= input.take(n as int));
            assert(input.take(n + 1).last() == x);
            assert(rest@ =~= input.skip(n + 1));
        }
        out.insert(j, x);
        n = n + 1;
    }
    assert(input.take(n as int) =~= input);
    proof {
        law_newest_first(input);
    }
    out
}

/// The later of two modification times.
pub open spec fn later_date(a: Seq<char>, b: Seq<char>) -> Seq<char> {
    if text_before(a, b) {
        b
    } else {
        a
    }
}

/// The latest of `start` and `dates`.
pub open spec fn latest_date(start: Seq<char>, dates: Seq<Seq<char>>) -> Seq<char>
    decreases dates.len(),
{
    if dates.len() == 0 {
        start
    } else {
        later_date(latest_date(start, dates.drop_last()), dates.last())
    }
}

/// The modification times of `s`, in order.
pub open spec fn dates_of<T: Dated>(s: Seq<T>) -> Seq<Seq<char>> {
    s.map_values(|x: T| x.date())
}

/// The latest time is one of those given, and none given is later.
pub proof fn law_latest_date(start: Seq<char>, dates: Seq<Seq<char>>)
    ensures
        latest_date(start, dates) == start || dates.contains(latest_date(start, dates)),
        !text_before(latest_date(start, dates), start),
        forall|i: int| 0 <= i < dates.len() ==> !text_before(latest_date(start, dates), #[trigger] dates[i]),
    decreases dates.len(),
{
    lemma_before_irreflexive(start);
    if dates.len() > 0 {
        let prev = latest_date(start, dates.drop_last());
        let last = dates.last();
        law_latest_date(start, dates.drop_last());
        let l = latest_date(start, dates);
        lemma_before_irreflexive(l);
        if prev != start {
            let k = choose|k: int| 0 <= k < dates.drop_last().len() && dates.drop_last()[k] == prev;
            assert(dates[k] == prev);
        }
        assert(dates[dates.len() - 1] == last);
        if text_before(prev, last) {
            // `last` is later than everything before it.
            assert forall|i: int| 0 <= i < dates.len() implies !text_before(l, #[trigger] dates[i]) by {
                if i < dates.len() - 1 {
                    assert(dates[i] == dates.drop_last()[i]);
                    lemma_before_total(prev, dates[i]);
                    if text_before(last, dates[i]) {
                        if prev == dates[i] {
                            lemma_before_transitive(prev, last, prev);
                        } else {
                            lemma_before_transitive(prev, last, dates[i]);
                            lemma_before_transitive(prev, dates[i], prev);
                        }
                    }
                }
            }
            if text_before(last, start) {
                lemma_before_total(prev, start);
                if prev == start {
                    lemma_before_transitive(prev, last, prev);
                } else {
                    lemma_before_transitive(prev, last, start);
                    lemma_before_transitive(prev, start, prev);
                }
            }
        } else {
            assert forall|i: int| 0 <= i < dates.len() implies !text_before(l, #[trigger] dates[i]) by {
                if i < dates.len() - 1 {
                    assert(dates[i] == dates.drop_last()[i]);
                }
            }
        }
    }
}

/// The later of two modification times (`max` of the two strings).
pub fn later_of(a: String, b: String) -> (r: String)
    ensures
        r@ == later_date(a@, b@),
{
    if date_before(a.as_str(), b.as_str()) {
        b
    } else {
        a
    }
}

/// The number of files in `folders`, their sub-folders included.
pub open spec fn file_total(folders: Seq<FolderInfo>) -> nat
    decreases folders.len(),
{
    if folders.len() == 0 {
        0
    } else {
        file_total(folders.drop_last()) + folders.last().file_count as nat
    }
}

/// Whether a directory entry is hidden from the listing: its name begins with `.`.
pub open spec fn is_hidden(name: Seq<char>) -> bool {
    name.len() > 0 && name[0] == '.'
}

/// Whether an entry of a directory is listed: names that begin with `.` are hidden.
pub fn is_listed(name: &str) -> (r: bool)
    ensures
        r == !is_hidden(name@),
{
    if name.unicode_len() == 0 {
        true
    } else {
        name.get_char(0) != '.'
    }
}

/// The folder `id` named `name`, last modified at `modified`, holding `folders`
/// and `files`: it counts every file below it, takes the latest time of itself
/// and of what it holds, and orders its folders and its files newest first.
pub fn assemble_folder(
    id: String,
    name: String,
    modified: String,
    folders: Vec<FolderInfo>,
    files: Vec<FileInfo>,
) -> (r: FolderInfo)
    requires
        file_total(folders@) + files@.len() <= usize::MAX,
    ensures
        r.id@ == id@,
        r.name@ == name@,
        r.file_count == file_total(folders@) + files@.len(),
        r.updated_at@ == latest_date(latest_date(modified@, dates_of(folders@)), dates_of(files@)),
        r.folders@ == newest_first(folders@),
        r.files@ == newest_first(files@),
        // Built from consistent sub-folders, the folder is consistent as a whole.
        (forall|i: int| 0 <= i < folders@.len() ==> tree_consistent(#[trigger] folders@[i]))
            ==> tree_consistent(r),
{
    let ghost modified_view = modified@;
    let mut count: usize = 0;
    let mut latest = modified;
    let mut i: usize = 0;
    while i < folders.len()
        invariant
            i <= folders@.len(),
            file_total(folders@) + files@.len() <= usize::MAX,
            count == file_total(folders@.take(i as int)),
            latest@ == latest_date(modified@, dates_of(folders@.take(i as int))),
        decreases folders@.len() - i,
    {
        proof {
            lemma_file_total_prefix(folders@, (i + 1) as nat);
            assert(folders@.take(i + 1).drop_last() =~= folders@.take(i as int));
            assert(dates_of(folders@.take(i + 1)).drop_last() =~= dates_of(folders@.take(i as int)));
        }
        count = count + folders[i].file_count;
        latest = later_of(latest, folders[i].updated_at.clone());
        i = i + 1;
    }
    assert(folders@.take(i as int) =~= folders@);
    let ghost after_folders = latest@;
    let mut j: usize = 0;
    while j < files.len()
        invariant
            j <= files@.len(),
            latest@ == latest_date(after_folders, dates_of(files@.take(j as int))),
        decreases files@.len() - j,
    {
        proof {
            assert(dates_of(files@.take(j + 1)).drop_last() =~= dates_of(files@.take(j as int)));
        }
        latest = later_of(latest, files[j].updated_at.clone());
        j = j + 1;
    }
    assert(files@.take(j as int) =~= files@);
    let file_count = count + files.len();
    let ghost given_folders = folders@;
    let ghost given_files = files@;
    let r = FolderInfo {
        id,
        name,
        file_count,
        updated_at: latest,
        folders: sort_newest_first(folders),
        files: sort_newest_first(files),
    };
    proof {
        if forall|i: int| 0 <= i < given_folders.len() ==> tree_consistent(#[trigger] given_folders[i]) {
            law_assembled_folder_consistent(modified_view, given_folders, given_files, r);
        }
    }
    r
}

proof fn lemma_file_total_prefix(folders: Seq<FolderInfo>, n: nat)
    requires
        n <= folders.len(),
    ensures
        file_total(folders.take(n as int)) <= file_total(folders),
    decreases folders.len(),
{
    if n < folders.len() {
        assert(folders.drop_last().take(n as int) =~= folders.take(n as int));
        lemma_file_total_prefix(folders.drop_last(), n);
    } else {
        assert(folders.take(n as int) =~= folders);
    }
}

/// The id of the folder that gathers the files lying at the top of the download folder.
pub const OTHERS_FOLDER_ID: &'static str = "others";

/// The name of that folder.
pub const OTHERS_FOLDER_NAME: &'static str = "其他";

/// The folder that gathers the files `files` lying at the top of the download folder.
pub open spec fn is_others_folder(f: FolderInfo, files: Seq<FileInfo>) -> bool {
    &&& f.id@ == OTHERS_FOLDER_ID@
    &&& f.name@ == OTHERS_FOLDER_NAME@
    &&& f.file_count == files.len()
    &&& f.updated_at@ == latest_date(files[0].date(), dates_of(files).drop_first())
    &&& f.folders@.len() == 0
    &&& f.files@ == files
}

/// Gathers the files lying at the top of the download folder into one folder, in
/// the order given; its time is the latest of theirs.
pub fn others_folder(files: Vec<FileInfo>) -> (r: FolderInfo)
    requires
        files@.len() > 0,
    ensures
        is_others_folder(r, files@),
{
    let mut latest = files[0].updated_at.clone();
    let mut j: usize = 1;
    while j < files.len()
        invariant
            1 <= j <= files@.len(),
            latest@ == latest_date(files@[0].date(), dates_of(files@).drop_first().take(j - 1)),
        decreases files@.len() - j,
    {
        proof {
            assert(dates_of(files@).drop_first().take(j as int).drop_last()
                =~= dates_of(files@).drop_first().take(j - 1));
            assert(dates_of(files@).drop_first().take(j as int).last() == files@[j as int].date());
        }
        latest = later_of(latest, files[j].updated_at.clone());
        j = j + 1;
    }
    assert(dates_of(files@).drop_first().take(j - 1) =~= dates_of(files@).drop_first());
    FolderInfo {
        id: String::from_str(OTHERS_FOLDER_ID),
        name: String::from_str(OTHERS_FOLDER_NAME),
        file_count: files.len(),
        updated_at: latest,
        folders: Vec::new(),
        files,
    }
}

/// `r` lists the top of the download folder holding `folders` and the files `files`:
/// its folders and, when files lie at the top, the folder that gathers them, newest first.
pub open spec fn is_root_listing(folders: Seq<FolderInfo>, files: Seq<FileInfo>, r: Seq<FolderInfo>) -> bool {
    &&& files.len() == 0 ==> r == newest_first(folders)
    &&& files.len() > 0 ==> exists|others: FolderInfo|
        is_others_folder(others, files) && r == newest_first(folders.push(others))
}

/// The top of the download folder as the file browser lists it: its folders and,
/// when files lie at the top, the folder that gathers them, newest first.
pub fn root_listing(folders: Vec<FolderInfo>, root_files: Vec<FileInfo>) -> (r: Vec<FolderInfo>)
    ensures
        is_root_listing(folders@, root_files@, r@),
        // Listed from consistent folders, every folder of the listing is consistent.
        (forall|i: int| 0 <= i < folders@.len() ==> tree_consistent(#[trigger] folders@[i]))
            ==> forall|j: int| 0 <= j < r@.len() ==> tree_consistent(#[trigger] r@[j]),
{
    let ghost given = folders@;
    let mut all = folders;
    if root_files.len() > 0 {
        let ghost files = root_files@;
        let others = others_folder(root_files);
        proof {
            lemma_others_consistent(others, files);
        }
        all.push(others);
    }
    let r = sort_newest_first(all);
    proof {
        if forall|i: int| 0 <= i < given.len() ==> tree_consistent(#[trigger] given[i]) {
            lemma_newest_first_members(all@);
            assert forall|j: int| 0 <= j < r@.len() implies tree_consistent(#[trigger] r@[j]) by {
                assert(all@.contains(r@[j]));
                let k = choose|k: int| 0 <= k < all@.len() && all@[k] == r@[j];
                if k < given.len() {
                    assert(all@[k] == given[k]);
                }
            }
        }
    }
    r
}


// ---------------------------------------------------------------------------
// The listing as a whole
// ---------------------------------------------------------------------------

/// Whether a folder and everything below it agree: each folder counts its own files
/// plus the files counted by its sub-folders, and its time is no earlier than that of
/// anything directly inside it.
pub open spec fn tree_consistent(f: FolderInfo) -> bool
    decreases f,
{
    &&& f.file_count == f.files@.len() + file_total(f.folders@)
    &&& forall|i: int| 0 <= i < f.files@.len() ==> !text_before(f.updated_at@, #[trigger] f.files@[i].updated_at@)
    &&& forall|i: int| 0 <= i < f.folders@.len() ==> !text_before(f.updated_at@, #[trigger] f.folders@[i].updated_at@)
    &&& forall|i: int| 0 <= i < f.folders@.len() ==> tree_consistent(#[trigger] f.folders@[i])
}

proof fn lemma_file_total_insert(s: Seq<FolderInfo>, k: int, x: FolderInfo)
    requires
        0 <= k <= s.len(),
    ensures
        file_total(s.insert(k, x)) == file_total(s) + x.file_count,
    decreases s.len(),
{
    if k == s.len() {
        assert(s.insert(k, x).drop_last() =~= s);
    } else {
        assert(s.insert(k, x).drop_last() =~= s.drop_last().insert(k, x));
        lemma_file_total_insert(s.drop_last(), k, x);
    }
}

proof fn lemma_file_total_newest_first(s: Seq<FolderInfo>)
    ensures
        file_total(newest_first(s)) == file_total(s),
    decreases s.len(),
{
    if s.len() > 0 {
        let rest = newest_first(s.drop_last());
        lemma_file_total_newest_first(s.drop_last());
        law_newest_first(s.drop_last());
        lemma_insert_position(rest, s.last().date());
        lemma_file_total_insert(rest, insert_position(rest, s.last().date()) as int, s.last());
    }
}

proof fn lemma_newest_first_members<T: Dated>(s: Seq<T>)
    ensures
        newest_first(s).len() == s.len(),
        forall|i: int| 0 <= i < newest_first(s).len() ==> s.contains(#[trigger] newest_first(s)[i]),
{
    law_newest_first(s);
    assert forall|i: int| 0 <= i < newest_first(s).len() implies s.contains(#[trigger] newest_first(s)[i]) by {
        vstd::seq_lib::to_multiset_contains(newest_first(s), newest_first(s)[i]);
        vstd::seq_lib::to_multiset_contains(s, newest_first(s)[i]);
    }
    vstd::seq_lib::to_multiset_len(s);
    vstd::seq_lib::to_multiset_len(newest_first(s));
}

proof fn lemma_not_before_chain(a: Seq<char>, b: Seq<char>, c: Seq<char>)
    requires
        !text_before(a, b),
        !text_before(b, c),
    ensures
        !text_before(a, c),
{
    if text_before(a, c) {
        lemma_before_total(b, c);
        if b == c {
        } else if text_before(c, b) {
            lemma_before_transitive(a, c, b);
        }
    }
}

/// A folder made as `assemble_folder` makes it, from sub-folders that are consistent
/// trees, is a consistent tree (see `tree_consistent`): its count is its own files plus
/// its sub-folders' counts, and its time is no earlier than anything directly inside it.
/// By induction from the innermost folders, every folder of a listing is consistent.
pub proof fn law_assembled_folder_consistent(modified: Seq<char>, folders: Seq<FolderInfo>, files: Seq<FileInfo>, r: FolderInfo)
    requires
        forall|i: int| 0 <= i < folders.len() ==> tree_consistent(#[trigger] folders[i]),
        r.file_count == file_total(folders) + files.len(),
        r.updated_at@ == latest_date(latest_date(modified, dates_of(folders)), dates_of(files)),
        r.folders@ == newest_first(folders),
        r.files@ == newest_first(files),
    ensures
        tree_consistent(r),
{
    let inner = latest_date(modified, dates_of(folders));
    law_latest_date(modified, dates_of(folders));
    law_latest_date(inner, dates_of(files));
    lemma_file_total_newest_first(folders);
    lemma_newest_first_members(folders);
    lemma_newest_first_members(files);
    assert forall|i: int| 0 <= i < r.files@.len() implies !text_before(r.updated_at@, #[trigger] r.files@[i].updated_at@) by {
        let f = r.files@[i];
        assert(files.contains(f));
        let k = choose|k: int| 0 <= k < files.len() && files[k] == f;
        assert(dates_of(files)[k] == f.updated_at@);
    }
    assert forall|i: int| 0 <= i < r.folders@.len() implies !text_before(r.updated_at@, #[trigger] r.folders@[i].updated_at@) by {
        let f = r.folders@[i];
        assert(folders.contains(f));
        let k = choose|k: int| 0 <= k < folders.len() && folders[k] == f;
        assert(dates_of(folders)[k] == f.updated_at@);
        lemma_not_before_chain(r.updated_at@, inner, f.updated_at@);
    }
    assert forall|i: int| 0 <= i < r.folders@.len() implies tree_consistent(#[trigger] r.folders@[i]) by {
        let f = r.folders@[i];
        assert(folders.contains(f));
        let k = choose|k: int| 0 <= k < folders.len() && folders[k] == f;
    }
}

proof fn lemma_others_consistent(others: FolderInfo, files: Seq<FileInfo>)
    requires
        files.len() > 0,
        is_others_folder(others, files),
    ensures
        tree_consistent(others),
{
    let start = files[0].date();
    let rest = dates_of(files).drop_first();
    law_latest_date(start, rest);
    assert(file_total(others.folders@) == 0);
    assert forall|i: int| 0 <= i < others.files@.len() implies !text_before(others.updated_at@, #[trigger] others.files@[i].updated_at@) by {
        if i > 0 {
            assert(rest[i - 1] == files[i].updated_at@);
        }
    }
}

// ---------------------------------------------------------------------------
// The listing built from what was read on disk
// ---------------------------------------------------------------------------

/// `%Y-%m-%d %H:%M` of the UTC instant `secs` seconds after 1970-01-01 00:00 UTC, as
/// chrono writes it.
pub uninterp spec fn utc_minute_text(secs: int) -> Seq<char>;

/// The instants that chrono's `DateTime<Utc>` holds, whole seconds from 1970-01-01
/// 00:00 UTC, include these (chrono's own range reaches a little further, to the years
/// -262143 and 262142).
pub open spec fn time_in_range(secs: i64) -> bool {
    -8_000_000_000_000 <= secs <= 8_000_000_000_000
}

/// chrono's `DateTime::<Utc>::from_timestamp(secs, 0)` formatted with
/// `%Y-%m-%d %H:%M`. Claimed: the instant is there (`Some`) for every `secs` in
/// `time_in_range`, and the text is `utc_minute_text(secs)`, which depends on `secs`
/// alone. What that text is, is not stated.
#[verifier::external_body]
pub(crate) fn utc_minute(secs: i64) -> (r: Option<String>)
    ensures
        time_in_range(secs) ==> r is Some,
        r matches Some(s) ==> s@ == utc_minute_text(secs as int),
{
    match chrono::DateTime::<chrono::Utc>::from_timestamp(secs, 0) {
        Some(dt) => Some(dt.format("%Y-%m-%d %H:%M").to_string()),
        None => None,
    }
}

/// A file as read from disk.
pub struct ScannedFile {
    pub name: String,
    /// The size in bytes.
    pub size: u64,
    /// The modification time in whole seconds from 1970-01-01 00:00 UTC, rounded down.
    pub modified: i64,
}

/// A directory as read from disk, with every entry it holds, hidden ones included.
pub struct ScannedFolder {
    pub name: String,
    /// The modification time in whole seconds from 1970-01-01 00:00 UTC, rounded down.
    pub modified: i64,
    pub folders: Vec<ScannedFolder>,
    pub files: Vec<ScannedFile>,
}

/// The modification time `secs` as the listing shows it.
pub open spec fn shown_time(secs: i64) -> Seq<char> {
    utc_minute_text(secs as int)
}

/// Every listed file of `files` has a time that chrono holds.
pub open spec fn file_times_in_range(files: Seq<ScannedFile>) -> bool {
    forall|k: int| 0 <= k < files.len() && !is_hidden(files[k].name@) ==> time_in_range(#[trigger] files[k].modified)
}

/// Every listed directory of `fs`, and every listed entry below it, has a time that
/// chrono holds.
pub open spec fn forest_times_in_range(fs: Seq<ScannedFolder>) -> bool
    decreases fs,
{
    if fs.len() == 0 {
        true
    } else {
        let last = fs[fs.len() - 1];
        &&& forest_times_in_range(fs.subrange(0, fs.len() - 1))
        &&& !is_hidden(last.name@) ==> {
            &&& time_in_range(last.modified)
            &&& file_times_in_range(last.files@)
            &&& forest_times_in_range(last.folders@)
        }
    }
}

/// The directory `s`, and every listed entry below it, has a time that chrono holds.
pub open spec fn times_in_range(s: ScannedFolder) -> bool {
    &&& time_in_range(s.modified)
    &&& file_times_in_range(s.files@)
    &&& forest_times_in_range(s.folders@)
}

/// How many of `files` are listed.
pub open spec fn listed_file_count(files: Seq<ScannedFile>) -> nat
    decreases files.len(),
{
    if files.len() == 0 {
        0
    } else if is_hidden(files.last().name@) {
        listed_file_count(files.drop_last())
    } else {
        listed_file_count(files.drop_last()) + 1
    }
}

/// The modification times of the listed `files`, in order.
pub open spec fn listed_file_times(files: Seq<ScannedFile>) -> Seq<Seq<char>>
    decreases files.len(),
{
    if files.len() == 0 {
        Seq::empty()
    } else if is_hidden(files.last().name@) {
        listed_file_times(files.drop_last())
    } else {
        listed_file_times(files.drop_last()).push(shown_time(files.last().modified))
    }
}

/// How many listed files lie below the listed directories `fs`, at any depth.
pub open spec fn forest_count(fs: Seq<ScannedFolder>) -> nat
    decreases fs,
{
    if fs.len() == 0 {
        0
    } else {
        let last = fs[fs.len() - 1];
        let rest = forest_count(fs.subrange(0, fs.len() - 1));
        if is_hidden(last.name@) {
            rest
        } else {
            rest + listed_file_count(last.files@) + forest_count(last.folders@)
        }
    }
}

/// The times of the listed directories `fs`, in order, each the latest of the
/// directory itself and of everything listed below it.
pub open spec fn forest_times(fs: Seq<ScannedFolder>) -> Seq<Seq<char>>
    decreases fs,
{
    if fs.len() == 0 {
        Seq::empty()
    } else {
        let last = fs[fs.len() - 1];
        let rest = forest_times(fs.subrange(0, fs.len() - 1));
        if is_hidden(last.name@) {
            rest
        } else {
            rest.push(
                latest_date(
                    latest_date(shown_time(last.modified), forest_times(last.folders@)),
                    listed_file_times(last.files@),
                ),
            )
        }
    }
}

/// How many listed files lie below the directory `s`, at any depth.
pub open spec fn listed_count(s: ScannedFolder) -> nat {
    listed_file_count(s.files@) + forest_count(s.folders@)
}

/// The latest time of the directory `s` and of everything listed below it.
pub open spec fn folder_time(s: ScannedFolder) -> Seq<char> {
    latest_date(latest_date(shown_time(s.modified), forest_times(s.folders@)), listed_file_times(s.files@))
}

/// `f` is the file `s` of the folder `parent` as the listing shows it.
pub open spec fn file_built(parent: Seq<char>, s: ScannedFile, f: FileInfo) -> bool {
    &&& f.id@ == entry_id(parent, s.name@)
    &&& f.name@ == s.name@
    &&& f.size@ == size_text(s.size as nat)
    &&& f.updated_at@ == shown_time(s.modified)
}

/// `out` holds, in order, the listed `files` of the folder `parent` as the listing
/// shows them.
pub open spec fn files_built(parent: Seq<char>, files: Seq<ScannedFile>, out: Seq<FileInfo>) -> bool
    decreases files.len(),
{
    if files.len() == 0 {
        out.len() == 0
    } else if is_hidden(files.last().name@) {
        files_built(parent, files.drop_last(), out)
    } else {
        &&& out.len() > 0
        &&& files_built(parent, files.drop_last(), out.drop_last())
        &&& file_built(parent, files.last(), out.last())
    }
}

/// The fields of `f` that the directory `s`, listed as the folder `id`, gives it
/// directly: its id and name, how many listed files lie below it at any depth, and the
/// latest time of itself and of everything listed below it.
pub open spec fn folder_summary(id: Seq<char>, s: ScannedFolder, f: FolderInfo) -> bool {
    &&& f.id@ == id
    &&& f.name@ == s.name@
    &&& f.file_count == listed_count(s)
    &&& f.updated_at@ == folder_time(s)
}

/// `f` is the directory `s` listed as the folder `id`, with everything below it (see
/// `folder_summary`): its sub-folders are its listed directories, each built the same
/// way, and its files are its listed files, both newest first; hidden entries are left out.
pub open spec fn folder_built(id: Seq<char>, s: ScannedFolder, f: FolderInfo) -> bool
    decreases s,
{
    let subs = restore_order(f.folders@, forest_times(s.folders@));
    &&& folder_summary(id, s, f)
    &&& f.folders@ == newest_first(subs)
    &&& forest_built(id, s.folders@, subs)
    &&& exists|outs: Seq<FileInfo>|
        #[trigger] files_built(id, s.files@, outs) && f.files@ == newest_first(outs)
}

/// `out` holds, in order, the listed directories `fs` of the folder `parent`, each
/// built as `folder_built` says.
pub open spec fn forest_built(parent: Seq<char>, fs: Seq<ScannedFolder>, out: Seq<FolderInfo>) -> bool
    decreases fs,
{
    if fs.len() == 0 {
        out.len() == 0
    } else {
        let last = fs[fs.len() - 1];
        let rest = fs.subrange(0, fs.len() - 1);
        if is_hidden(last.name@) {
            forest_built(parent, rest, out)
        } else {
            &&& out.len() > 0
            &&& forest_built(parent, rest, out.drop_last())
            &&& folder_built(entry_id(parent, last.name@), last, out.last())
        }
    }
}

/// The listed `files` of the folder `id`, in the order given; `None` when the time of
/// one of them is one that chrono does not hold.
fn build_files(id: &str, files: &Vec<ScannedFile>) -> (r: Option<Vec<FileInfo>>)
    ensures
        file_times_in_range(files@) ==> r is Some,
        r matches Some(out) ==> files_built(id@, files@, out@),
        r matches Some(out) ==> out@.len() == listed_file_count(files@),
        r matches Some(out) ==> dates_of(out@) == listed_file_times(files@),
{
    let mut out: Vec<FileInfo> = Vec::new();
    let mut j: usize = 0;
    while j < files.len()
        invariant
            j <= files@.len(),
            files_built(id@, files@.take(j as int), out@),
            out@.len() == listed_file_count(files@.take(j as int)),
            dates_of(out@) == listed_file_times(files@.take(j as int)),
        decreases files@.len() - j,
    {
        let f = &files[j];
        proof {
            assert(files@.take(j + 1).drop_last() =~= files@.take(j as int));
            assert(files@.take(j + 1).last() == files@[j as int]);
        }
        if is_listed(f.name.as_str()) {
            let updated_at = match utc_minute(f.modified) {
                Some(text) => text,
                None => {
                    return None;
                },
            };
            let info = FileInfo {
                id: relative_id_path(id, f.name.as_str()),
                name: f.name.clone(),
                size: format_size(f.size),
                updated_at,
            };
            let ghost prev = out@;
            out.push(info);
            proof {
                assert(out@.drop_last() =~= prev);
                assert(dates_of(out@) =~= dates_of(prev).push(out@.last().updated_at@));
            }
        }
        j = j + 1;
    }
    assert(files@.take(j as int) =~= files@);
    Some(out)
}

/// The listed directories `fs` of the folder `id`, in the order given, each with
/// everything below it; `None` when one of them holds more files than a `usize` counts,
/// or when a time below them is one that chrono does not hold.
fn build_forest(id: &str, fs: &Vec<ScannedFolder>) -> (r: Option<Vec<FolderInfo>>)
    ensures
        r is Some ==> forall|k: int|
            0 <= k < fs@.len() && !is_hidden(fs@[k].name@) ==> listed_count(#[trigger] fs@[k]) <= usize::MAX,
        (forall|k: int|
            0 <= k < fs@.len() && !is_hidden(fs@[k].name@) ==> listed_count(#[trigger] fs@[k]) <= usize::MAX)
            && forest_times_in_range(fs@) ==> r is Some,
        r matches Some(v) ==> forest_built(id@, fs@, v@),
        r matches Some(v) ==> forall|j: int| 0 <= j < v@.len() ==> tree_consistent(#[trigger] v@[j]),
    decreases fs,
{
    let mut out: Vec<FolderInfo> = Vec::new();
    let mut i: usize = 0;
    while i < fs.len()
        invariant
            i <= fs@.len(),
            forest_built(id@, fs@.take(i as int), out@),
            forall|j: int| 0 <= j < out@.len() ==> tree_consistent(#[trigger] out@[j]),
            forall|k: int|
                0 <= k < i && !is_hidden(fs@[k].name@) ==> listed_count(#[trigger] fs@[k]) <= usize::MAX,
        decreases fs@.len() - i,
    {
        let sub = &fs[i];
        proof {
            assert(fs@.take(i + 1).subrange(0, i as int) =~= fs@.take(i as int));
            assert(fs@.take(i + 1)[i as int] == fs@[i as int]);
        }
        if is_listed(sub.name.as_str()) {
            let child_id = relative_id_path(id, sub.name.as_str());
            match build_folder(child_id.as_str(), sub) {
                Some(c) => {
                    let ghost prev = out@;
                    out.push(c);
                    proof {
                        assert(out@.drop_last() =~= prev);
                        assert(out@.last() == c);
                    }
                },
                None => {
                    proof {
                        if forest_times_in_range(fs@) {
                            lemma_forest_times_member(fs@, i as int);
                        }
                    }
                    return None;
                },
            }
        }
        i = i + 1;
    }
    assert(fs@.take(i as int) =~= fs@);
    Some(out)
}

proof fn lemma_forest_times_member(fs: Seq<ScannedFolder>, k: int)
    requires
        0 <= k < fs.len(),
        !is_hidden(fs[k].name@),
        forest_times_in_range(fs),
    ensures
        times_in_range(fs[k]),
    decreases fs.len(),
{
    if k < fs.len() - 1 {
        let rest = fs.subrange(0, fs.len() - 1);
        assert(rest[k] == fs[k]);
        lemma_forest_times_member(rest, k);
    }
}

proof fn lemma_forest_count_member(fs: Seq<ScannedFolder>, k: int)
    requires
        0 <= k < fs.len(),
        !is_hidden(fs[k].name@),
    ensures
        listed_count(fs[k]) <= forest_count(fs),
    decreases fs.len(),
{
    if k < fs.len() - 1 {
        let rest = fs.subrange(0, fs.len() - 1);
        assert(rest[k] == fs[k]);
        lemma_forest_count_member(rest, k);
    }
}

proof fn lemma_forest_built(id: Seq<char>, fs: Seq<ScannedFolder>, out: Seq<FolderInfo>)
    requires
        forest_built(id, fs, out),
    ensures
        file_total(out) == forest_count(fs),
        dates_of(out) == forest_times(fs),
    decreases fs.len(),
{
    if fs.len() > 0 {
        let last = fs[fs.len() - 1];
        let rest = fs.subrange(0, fs.len() - 1);
        if is_hidden(last.name@) {
            lemma_forest_built(id, rest, out);
        } else {
            lemma_forest_built(id, rest, out.drop_last());
            assert(folder_built(entry_id(id, last.name@), last, out.last()));
            assert(out.last().file_count == listed_count(last));
            assert(dates_of(out) =~= dates_of(out.drop_last()).push(out.last().updated_at@));
        }
    } else {
        assert(dates_of(out) =~= Seq::empty());
    }
}

/// The directory `s` listed as the folder `id`, with everything below it (see
/// `folder_built`). `None` when it holds more files than a `usize` counts; otherwise
/// `Some` at least whenever every time in it is in `time_in_range`. Every folder of the
/// result, at any depth, is consistent (see `tree_consistent`).
pub fn build_folder(id: &str, s: &ScannedFolder) -> (r: Option<FolderInfo>)
    ensures
        r is Some ==> listed_count(*s) <= usize::MAX,
        listed_count(*s) <= usize::MAX && times_in_range(*s) ==> r is Some,
        r matches Some(f) ==> folder_built(id@, *s, f),
        r matches Some(f) ==> tree_consistent(f),
    decreases s,
{
    let modified = match utc_minute(s.modified) {
        Some(text) => text,
        None => {
            return None;
        },
    };
    let children = match build_forest(id, &s.folders) {
        Some(v) => v,
        None => {
            proof {
                if listed_count(*s) <= usize::MAX {
                    assert forall|k: int|
                        0 <= k < s.folders@.len() && !is_hidden(s.folders@[k].name@)
                            implies listed_count(#[trigger] s.folders@[k]) <= usize::MAX by {
                        lemma_forest_count_member(s.folders@, k);
                    }
                }
            }
            return None;
        },
    };
    let files = match build_files(id, &s.files) {
        Some(v) => v,
        None => {
            return None;
        },
    };
    proof {
        lemma_forest_built(id@, s.folders@, children@);
    }
    let mut count: usize = 0;
    let mut k: usize = 0;
    while k < children.len()
        invariant
            k <= children@.len(),
            count == file_total(children@.take(k as int)),
            file_total(children@) == forest_count(s.folders@),
        decreases children@.len() - k,
    {
        proof {
            lemma_file_total_prefix(children@, (k + 1) as nat);
            assert(children@.take(k + 1).drop_last() =~= children@.take(k as int));
            assert(children@.take(k + 1).last() == children@[k as int]);
        }
        if children[k].file_count > usize::MAX - count {
            return None;
        }
        count = count + children[k].file_count;
        k = k + 1;
    }
    assert(children@.take(k as int) =~= children@);
    if files.len() > usize::MAX - count {
        return None;
    }
    let ghost subs = children@;
    let ghost outs = files@;
    let r = assemble_folder(String::from_str(id), s.name.clone(), modified, children, files);
    proof {
        law_restore_order(subs);
        assert(files_built(id@, s.files@, outs) && r.files@ == newest_first(outs));
    }
    Some(r)
}

/// The top of the download folder as the file browser lists it, built from the
/// directories `folders` and the files `files` read there: each listed directory with
/// everything below it (see `folder_built`, its id its name), and the listed files
/// gathered as `root_listing` gathers them. `None` when a directory holds more files
/// than a `usize` counts; otherwise `Some` at least whenever every listed time is in
/// `time_in_range`. Every folder of the listing, at any depth, is consistent (see
/// `tree_consistent`).
pub fn build_listing(folders: &Vec<ScannedFolder>, files: &Vec<ScannedFile>) -> (r: Option<Vec<FolderInfo>>)
    ensures
        r is Some ==> forall|k: int|
            0 <= k < folders@.len() && !is_hidden(folders@[k].name@)
                ==> listed_count(#[trigger] folders@[k]) <= usize::MAX,
        (forall|k: int|
            0 <= k < folders@.len() && !is_hidden(folders@[k].name@)
                ==> listed_count(#[trigger] folders@[k]) <= usize::MAX)
            && forest_times_in_range(folders@) && file_times_in_range(files@) ==> r is Some,
        r matches Some(v) ==> exists|subs: Seq<FolderInfo>, outs: Seq<FileInfo>|
            #![trigger forest_built(Seq::empty(), folders@, subs), files_built(Seq::empty(), files@, outs)]
            forest_built(Seq::empty(), folders@, subs) && files_built(Seq::empty(), files@, outs)
                && is_root_listing(subs, outs, v@),
        r matches Some(v) ==> forall|j: int| 0 <= j < v@.len() ==> tree_consistent(#[trigger] v@[j]),
{
    let root = String::new();
    assert(root@ =~= Seq::<char>::empty());
    let subs = match build_forest(root.as_str(), folders) {
        Some(v) => v,
        None => {
            return None;
        },
    };
    let outs = match build_files(root.as_str(), files) {
        Some(v) => v,
        None => {
            return None;
        },
    };
    let ghost s = subs@;
    let ghost o = outs@;
    let v = root_listing(subs, outs);
    proof {
        assert(forest_built(Seq::empty(), folders@, s) && files_built(Seq::empty(), files@, o));
    }
    Some(v)
}

} // verus!
