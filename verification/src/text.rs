//! Character-level text helpers: whitespace trimming, ASCII case folding,
//! comma splitting, exact comparison and decimal rendering, each stated over
//! the `Seq<char>` view of the text.

use vstd::prelude::*;

verus! {

/// Unicode `White_Space`, the property that `char::is_whitespace` and
/// `str::trim` test.
pub open spec fn is_white_space(c: char) -> bool {
    let n = c as u32;
    ||| 9 <= n <= 13
    ||| n == 32
    ||| n == 0x85
    ||| n == 0xA0
    ||| n == 0x1680
    ||| 0x2000 <= n <= 0x200A
    ||| n == 0x2028
    ||| n == 0x2029
    ||| n == 0x202F
    ||| n == 0x205F
    ||| n == 0x3000
}

/// `s` with its leading whitespace removed.
pub open spec fn trim_start(s: Seq<char>) -> Seq<char>
    decreases s.len(),
{
    if s.len() > 0 && is_white_space(s[0]) {
        trim_start(s.drop_first())
    } else {
        s
    }
}

/// `s` with its trailing whitespace removed.
pub open spec fn trim_end(s: Seq<char>) -> Seq<char>
    decreases s.len(),
{
    if s.len() > 0 && is_white_space(s.last()) {
        trim_end(s.drop_last())
    } else {
        s
    }
}

/// What `str::trim` leaves of `s`.
pub open spec fn trim(s: Seq<char>) -> Seq<char> {
    trim_end(trim_start(s))
}

/// Whether `s` is empty once trimmed, i.e. holds nothing but whitespace.
pub open spec fn is_blank(s: Seq<char>) -> bool {
    trim(s).len() == 0
}

/// `char::to_ascii_lowercase`: `A`..=`Z` become `a`..=`z`, all else stays.
pub open spec fn ascii_lower(c: char) -> char {
    if 65 <= (c as u32) <= 90 {
        ((c as u32) + 32) as char
    } else {
        c
    }
}

/// `str::to_ascii_lowercase` on the whole text.
pub open spec fn ascii_lower_seq(s: Seq<char>) -> Seq<char> {
    s.map_values(|c: char| ascii_lower(c))
}

/// Left-to-right scan behind `split_on`: the pieces already closed by a
/// separator, and the piece still open.
pub open spec fn split_scan(s: Seq<char>, sep: char) -> (Seq<Seq<char>>, Seq<char>)
    decreases s.len(),
{
    if s.len() == 0 {
        (Seq::empty(), Seq::empty())
    } else {
        let (done, cur) = split_scan(s.drop_last(), sep);
        if s.last() == sep {
            (done.push(cur), Seq::empty())
        } else {
            (done, cur.push(s.last()))
        }
    }
}

/// The pieces `str::split(sep)` yields, in order; there is always one more
/// piece than there are separators.
pub open spec fn split_on(s: Seq<char>, sep: char) -> Seq<Seq<char>> {
    let (done, cur) = split_scan(s, sep);
    done.push(cur)
}

/// The texts of `ts` with `sep` between each two of them.
pub open spec fn join_with(ts: Seq<Seq<char>>, sep: char) -> Seq<char>
    decreases ts.len(),
{
    if ts.len() == 0 {
        Seq::empty()
    } else if ts.len() == 1 {
        ts[0]
    } else {
        join_with(ts.drop_last(), sep).push(sep) + ts.last()
    }
}

/// Scanning on past a stretch without separators only lengthens the open
/// piece.
proof fn lemma_split_scan_append(a: Seq<char>, b: Seq<char>, sep: char)
    requires
        !b.contains(sep),
    ensures
        split_scan(a + b, sep) == (split_scan(a, sep).0, split_scan(a, sep).1 + b),
    decreases b.len(),
{
    if b.len() == 0 {
        assert(a + b =~= a);
        assert(split_scan(a, sep).1 + b =~= split_scan(a, sep).1);
    } else {
        let c = b.last();
        assert(b.contains(c)) by {
            assert(b[b.len() - 1] == c);
        }
        assert(!b.drop_last().contains(sep)) by {
            if b.drop_last().contains(sep) {
                let k = choose|k: int| 0 <= k < b.drop_last().len() && b.drop_last()[k] == sep;
                assert(b[k] == sep);
            }
        }
        lemma_split_scan_append(a, b.drop_last(), sep);
        assert((a + b).drop_last() =~= a + b.drop_last());
        assert((a + b).last() == c);
        assert(split_scan(a, sep).1 + b.drop_last() + seq![c] =~= split_scan(a, sep).1 + b);
    }
}

/// Splitting texts joined by a separator none of them holds gives them back.
pub proof fn lemma_split_join(ts: Seq<Seq<char>>, sep: char)
    requires
        ts.len() > 0,
        forall|i: int| 0 <= i < ts.len() ==> !(#[trigger] ts[i]).contains(sep),
    ensures
        split_on(join_with(ts, sep), sep) == ts,
    decreases ts.len(),
{
    if ts.len() == 1 {
        lemma_split_scan_append(Seq::empty(), ts[0], sep);
        assert(Seq::<char>::empty() + ts[0] =~= ts[0]);
        assert(Seq::<char>::empty() + ts[0] =~= ts[0]);
        assert(seq![ts[0]] =~= ts);
    } else {
        let init = ts.drop_last();
        assert forall|i: int| 0 <= i < init.len() implies !(#[trigger] init[i]).contains(sep) by {
            assert(init[i] == ts[i]);
        }
        lemma_split_join(init, sep);
        let a = join_with(init, sep).push(sep);
        assert(a.drop_last() =~= join_with(init, sep));
        lemma_split_scan_append(a, ts.last(), sep);
        assert(Seq::<char>::empty() + ts.last() =~= ts.last());
        assert(init.push(ts.last()) =~= ts);
    }
}

/// Trimming keeps no character that was not there.
pub proof fn lemma_trim_keeps_absent(s: Seq<char>, c: char)
    requires
        !s.contains(c),
    ensures
        !trim(s).contains(c),
{
    lemma_trim_start_keeps_absent(s, c);
    lemma_trim_end_keeps_absent(trim_start(s), c);
}

proof fn lemma_trim_start_keeps_absent(s: Seq<char>, c: char)
    requires
        !s.contains(c),
    ensures
        !trim_start(s).contains(c),
    decreases s.len(),
{
    if s.len() > 0 && is_white_space(s[0]) {
        assert(!s.drop_first().contains(c)) by {
            if s.drop_first().contains(c) {
                let k = choose|k: int| 0 <= k < s.drop_first().len() && s.drop_first()[k] == c;
                assert(s[k + 1] == c);
            }
        }
        lemma_trim_start_keeps_absent(s.drop_first(), c);
    }
}

proof fn lemma_trim_end_keeps_absent(s: Seq<char>, c: char)
    requires
        !s.contains(c),
    ensures
        !trim_end(s).contains(c),
    decreases s.len(),
{
    if s.len() > 0 && is_white_space(s.last()) {
        assert(!s.drop_last().contains(c)) by {
            if s.drop_last().contains(c) {
                let k = choose|k: int| 0 <= k < s.drop_last().len() && s.drop_last()[k] == c;
                assert(s[k] == c);
            }
        }
        lemma_trim_end_keeps_absent(s.drop_last(), c);
    }
}

/// No piece of a split holds the separator.
pub proof fn lemma_split_pieces_lack_sep(s: Seq<char>, sep: char)
    ensures
        forall|i: int|
            0 <= i < split_on(s, sep).len() ==> !(#[trigger] split_on(s, sep)[i]).contains(sep),
{
    lemma_split_scan_lack_sep(s, sep);
}

proof fn lemma_split_scan_lack_sep(s: Seq<char>, sep: char)
    ensures
        forall|i: int|
            0 <= i < split_scan(s, sep).0.len() ==> !(#[trigger] split_scan(s, sep).0[i]).contains(
                sep,
            ),
        !split_scan(s, sep).1.contains(sep),
    decreases s.len(),
{
    if s.len() > 0 {
        lemma_split_scan_lack_sep(s.drop_last(), sep);
        let (done, cur) = split_scan(s.drop_last(), sep);
        if s.last() != sep {
            assert(!cur.push(s.last()).contains(sep)) by {
                if cur.push(s.last()).contains(sep) {
                    let k = choose|k: int| 0 <= k < cur.push(s.last()).len() && cur.push(s.last())[k] == sep;
                    if k < cur.len() {
                        assert(cur[k] == sep);
                    }
                }
            }
        } else {
            assert forall|i: int| 0 <= i < done.push(cur).len() implies !(#[trigger] done.push(
                cur,
            )[i]).contains(sep) by {
                if i < done.len() {
                    assert(done.push(cur)[i] == done[i]);
                }
            }
            assert(!Seq::<char>::empty().contains(sep));
        }
    }
}

/// The decimal digits of `n`, most significant first, with no leading zero.
pub open spec fn digits(n: nat) -> Seq<char>
    decreases n,
{
    if n < 10 {
        seq![digit_char(n)]
    } else {
        digits(n / 10).push(digit_char(n % 10))
    }
}

/// The character for one decimal digit.
pub open spec fn digit_char(d: nat) -> char {
    ((d + 48) as u32) as char
}

/// How `{}` renders an integer: an optional `-` then its digits.
pub open spec fn decimal(n: int) -> Seq<char> {
    if n < 0 {
        seq!['-'] + digits((-n) as nat)
    } else {
        digits(n as nat)
    }
}

/// Case folding neither creates nor removes whitespace.
pub proof fn lemma_lower_keeps_white_space(c: char)
    ensures
        is_white_space(ascii_lower(c)) == is_white_space(c),
        ascii_lower(ascii_lower(c)) == ascii_lower(c),
{
}

/// Trimming the front commutes with case folding.
pub proof fn lemma_trim_start_lower(s: Seq<char>)
    ensures
        trim_start(ascii_lower_seq(s)) == ascii_lower_seq(trim_start(s)),
    decreases s.len(),
{
    if s.len() > 0 {
        lemma_lower_keeps_white_space(s[0]);
        assert(ascii_lower_seq(s)[0] == ascii_lower(s[0]));
        if is_white_space(s[0]) {
            assert(ascii_lower_seq(s).drop_first() =~= ascii_lower_seq(s.drop_first()));
            lemma_trim_start_lower(s.drop_first());
        }
    }
}

/// Trimming the back commutes with case folding.
pub proof fn lemma_trim_end_lower(s: Seq<char>)
    ensures
        trim_end(ascii_lower_seq(s)) == ascii_lower_seq(trim_end(s)),
    decreases s.len(),
{
    if s.len() > 0 {
        lemma_lower_keeps_white_space(s.last());
        assert(ascii_lower_seq(s).last() == ascii_lower(s.last()));
        if is_white_space(s.last()) {
            assert(ascii_lower_seq(s).drop_last() =~= ascii_lower_seq(s.drop_last()));
            lemma_trim_end_lower(s.drop_last());
        }
    }
}

/// Trimming the back leaves a prefix.
pub proof fn lemma_trim_end_prefix(s: Seq<char>)
    ensures
        trim_end(s).len() <= s.len(),
        trim_end(s) == s.take(trim_end(s).len() as int),
    decreases s.len(),
{
    if s.len() > 0 && is_white_space(s.last()) {
        lemma_trim_end_prefix(s.drop_last());
        assert(s.drop_last().take(trim_end(s).len() as int) =~= s.take(trim_end(s).len() as int));
    } else {
        assert(s.take(s.len() as int) =~= s);
    }
}

/// What trimming leaves starts and ends with non-whitespace.
pub proof fn lemma_trim_ends(s: Seq<char>)
    ensures
        trim_start(s).len() > 0 ==> !is_white_space(trim_start(s)[0]),
        trim_end(s).len() > 0 ==> !is_white_space(trim_end(s).last()),
    decreases s.len(),
{
    if s.len() > 0 && is_white_space(s[0]) {
        lemma_trim_ends(s.drop_first());
    }
    if s.len() > 0 && is_white_space(s.last()) {
        lemma_trim_ends(s.drop_last());
    }
}

/// Trimming twice is trimming once.
pub proof fn lemma_trim_idempotent(s: Seq<char>)
    ensures
        trim(trim(s)) == trim(s),
{
    let x = trim_start(s);
    let y = trim_end(x);
    lemma_trim_ends(s);
    lemma_trim_ends(x);
    lemma_trim_end_prefix(x);
    if y.len() > 0 {
        assert(y[0] == x[0]);
    }
    assert(trim_start(y) == y);
    assert(trim_end(y) == y);
}

/// `String::push`, which vstd gives no contract: one character appended.
#[verifier::external_body]
pub(crate) fn push_char(s: &mut String, c: char)
    ensures
        final(s)@ == old(s)@.push(c),
{
    s.push(c);
}

/// `char::is_whitespace`.
pub fn is_white_space_char(c: char) -> (r: bool)
    ensures
        r == is_white_space(c),
{
    let n = c as u32;
    (9 <= n && n <= 13) || n == 32 || n == 0x85 || n == 0xA0 || n == 0x1680 || (0x2000 <= n && n
        <= 0x200A) || n == 0x2028 || n == 0x2029 || n == 0x202F || n == 0x205F || n == 0x3000
}

/// `char::to_ascii_lowercase`.
pub fn ascii_lower_char(c: char) -> (r: char)
    ensures
        r == ascii_lower(c),
{
    let n = c as u32;
    if 65 <= n && n <= 90 {
        let b: u8 = (n + 32) as u8;
        let r = b as char;
        assert(r as u32 == n + 32);
        r
    } else {
        c
    }
}

/// The characters of `s`, in order.
pub fn chars_of(s: &str) -> (r: Vec<char>)
    ensures
        r@ == s@,
{
    let n = s.unicode_len();
    let mut out: Vec<char> = Vec::new();
    let mut i: usize = 0;
    while i < n
        invariant
            n == s@.len(),
            i <= n,
            out@ == s@.take(i as int),
        decreases n - i,
    {
        out.push(s.get_char(i));
        i = i + 1;
        assert(out@ =~= s@.take(i as int));
    }
    assert(out@ =~= s@);
    out
}

/// Removing a first whitespace character does not change what trimming the
/// front leaves.
proof fn lemma_trim_start_skip(s: Seq<char>, i: int)
    requires
        0 <= i < s.len(),
        is_white_space(s[i]),
    ensures
        trim_start(s.skip(i)) == trim_start(s.skip(i + 1)),
{
    assert(s.skip(i).drop_first() =~= s.skip(i + 1));
}

/// Removing a last whitespace character does not change what trimming the
/// back leaves.
proof fn lemma_trim_end_take(s: Seq<char>, lo: int, j: int)
    requires
        0 <= lo < j <= s.len(),
        is_white_space(s[j - 1]),
    ensures
        trim_end(s.subrange(lo, j)) == trim_end(s.subrange(lo, j - 1)),
{
    assert(s.subrange(lo, j).drop_last() =~= s.subrange(lo, j - 1));
}

/// The bounds `[lo, hi)` of what trimming leaves of `s`.
pub fn trim_bounds(s: &Vec<char>) -> (r: (usize, usize))
    ensures
        r.0 <= r.1 <= s@.len(),
        trim(s@) == s@.subrange(r.0 as int, r.1 as int),
{
    let n = s.len();
    let mut lo: usize = 0;
    assert(s@.skip(0) =~= s@);
    while lo < n && is_white_space_char(s[lo])
        invariant
            n == s@.len(),
            lo <= n,
            trim_start(s@) == trim_start(s@.skip(lo as int)),
        decreases n - lo,
    {
        proof {
            lemma_trim_start_skip(s@, lo as int);
        }
        lo = lo + 1;
    }
    assert(trim_start(s@.skip(lo as int)) == s@.skip(lo as int)) by {
        if lo < n {
            assert(s@.skip(lo as int)[0] == s@[lo as int]);
        } else {
            assert(s@.skip(lo as int).len() == 0);
        }
    }
    assert(s@.skip(lo as int) =~= s@.subrange(lo as int, n as int));
    let mut hi: usize = n;
    while hi > lo && is_white_space_char(s[hi - 1])
        invariant
            n == s@.len(),
            lo <= hi <= n,
            trim_end(s@.subrange(lo as int, n as int)) == trim_end(
                s@.subrange(lo as int, hi as int),
            ),
        decreases hi,
    {
        proof {
            lemma_trim_end_take(s@, lo as int, hi as int);
        }
        hi = hi - 1;
    }
    assert(trim_end(s@.subrange(lo as int, hi as int)) == s@.subrange(lo as int, hi as int)) by {
        if hi > lo {
            assert(s@.subrange(lo as int, hi as int).last() == s@[hi - 1]);
        }
    }
    (lo, hi)
}

/// Whether `s` holds nothing but whitespace (`str::trim().is_empty()`).
pub fn blank(s: &str) -> (r: bool)
    ensures
        r == is_blank(s@),
{
    let cs = chars_of(s);
    let (lo, hi) = trim_bounds(&cs);
    lo == hi
}

/// The ASCII-lowercased text of `s[lo..hi]`.
pub fn lower_range(s: &Vec<char>, lo: usize, hi: usize) -> (r: String)
    requires
        lo <= hi <= s@.len(),
    ensures
        r@ == ascii_lower_seq(s@.subrange(lo as int, hi as int)),
{
    let mut out = String::new();
    let mut i: usize = lo;
    while i < hi
        invariant
            lo <= i <= hi <= s@.len(),
            out@ == ascii_lower_seq(s@.subrange(lo as int, i as int)),
        decreases hi - i,
    {
        let c = ascii_lower_char(s[i]);
        push_char(&mut out, c);
        i = i + 1;
        assert(out@ =~= ascii_lower_seq(s@.subrange(lo as int, i as int)));
    }
    out
}

/// `s.to_ascii_lowercase()`.
pub fn to_ascii_lower(s: &str) -> (r: String)
    ensures
        r@ == ascii_lower_seq(s@),
{
    let cs = chars_of(s);
    let r = lower_range(&cs, 0, cs.len());
    assert(cs@.subrange(0, cs@.len() as int) =~= cs@);
    r
}

/// `a == b` on text.
pub fn str_equal(a: &str, b: &str) -> (r: bool)
    ensures
        r == (a@ == b@),
{
    let ca = chars_of(a);
    let cb = chars_of(b);
    if ca.len() != cb.len() {
        return false;
    }
    let mut i: usize = 0;
    while i < ca.len()
        invariant
            ca@ == a@,
            cb@ == b@,
            ca@.len() == cb@.len(),
            i <= ca@.len(),
            forall|k: int| 0 <= k < i ==> ca@[k] == cb@[k],
        decreases ca@.len() - i,
    {
        if ca[i] != cb[i] {
            return false;
        }
        i = i + 1;
    }
    assert(a@ =~= b@);
    true
}

/// Whether `s` starts with `p`.
pub open spec fn has_prefix(s: Seq<char>, p: Seq<char>) -> bool {
    p.len() <= s.len() && s.subrange(0, p.len() as int) == p
}

/// `s.strip_prefix(prefix)`: what follows `prefix` in `s`, if `s` starts
/// with it.
pub fn strip_prefix<'a>(s: &'a str, prefix: &str) -> (r: Option<&'a str>)
    ensures
        match r {
            Some(t) => has_prefix(s@, prefix@) && t@ == s@.skip(prefix@.len() as int),
            None => !has_prefix(s@, prefix@),
        },
{
    let n = s.unicode_len();
    let m = prefix.unicode_len();
    if m > n {
        return None;
    }
    let head = s.substring_char(0, m);
    if str_equal(head, prefix) {
        let tail = s.substring_char(m, n);
        assert(tail@ =~= s@.skip(m as int));
        Some(tail)
    } else {
        None
    }
}

/// A copy of a list of strings.
pub fn clone_strings(v: &Vec<String>) -> (r: Vec<String>)
    ensures
        r@ == v@,
{
    let mut out: Vec<String> = Vec::new();
    let mut i: usize = 0;
    while i < v.len()
        invariant
            i <= v@.len(),
            out@ == v@.take(i as int),
        decreases v@.len() - i,
    {
        out.push(v[i].clone());
        i = i + 1;
        assert(out@ =~= v@.take(i as int));
    }
    assert(out@ =~= v@);
    out
}

/// One decimal digit as a character.
fn digit(d: u64) -> (r: char)
    requires
        d < 10,
    ensures
        r == digit_char(d as nat),
{
    let b: u8 = (d + 48) as u8;
    let r = b as char;
    assert(r as u32 == d + 48);
    r
}

/// The digits of `n` as `format!("{}", n)` writes them.
fn digits_of(n: u64) -> (r: String)
    ensures
        r@ == digits(n as nat),
    decreases n,
{
    if n < 10 {
        let mut out = String::new();
        push_char(&mut out, digit(n));
        assert(out@ =~= digits(n as nat));
        out
    } else {
        let mut out = digits_of(n / 10);
        push_char(&mut out, digit(n % 10));
        out
    }
}

/// `format!("{}", n)` for an unsigned integer.
pub fn unsigned_string(n: u64) -> (r: String)
    ensures
        r@ == digits(n as nat),
{
    digits_of(n)
}

/// `format!("{}", n)` for a 32-bit integer.
pub fn decimal_string(n: i32) -> (r: String)
    ensures
        r@ == decimal(n as int),
{
    let wide: i64 = n as i64;
    if wide < 0 {
        let mut out = String::new();
        push_char(&mut out, '-');
        let mag: u64 = (-wide) as u64;
        let rest = digits_of(mag);
        out.append(rest.as_str());
        assert(out@ =~= decimal(n as int));
        out
    } else {
        digits_of(wide as u64)
    }
}

} // verus!
