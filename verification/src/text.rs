//! Verified text utilities: character-level conversions, trimming, splitting,
//! and decimal integer parsing and rendering, the building blocks of the
//! kernel text formats this library speaks.

use vstd::prelude::*;

verus! {

/// ASCII whitespace, as trimmed from the ends of mount-table fields.
pub open spec fn is_ws_char(c: char) -> bool {
    c == ' ' || c == '\t' || c == '\n' || c == '\r' || c == '\u{b}' || c == '\u{c}'
}

/// The characters of `s` with leading whitespace removed.
pub open spec fn spec_trim_start(s: Seq<char>) -> Seq<char>
    decreases s.len(),
{
    if s.len() > 0 && is_ws_char(s[0]) {
        spec_trim_start(s.drop_first())
    } else {
        s
    }
}

/// The characters of `s` with trailing whitespace removed.
pub open spec fn spec_trim_end(s: Seq<char>) -> Seq<char>
    decreases s.len(),
{
    if s.len() > 0 && is_ws_char(s[s.len() - 1]) {
        spec_trim_end(s.drop_last())
    } else {
        s
    }
}

/// The characters of `s` with whitespace removed from both ends.
pub open spec fn spec_trim(s: Seq<char>) -> Seq<char> {
    spec_trim_end(spec_trim_start(s))
}

proof fn lemma_trim_start_skip(s: Seq<char>, a: int)
    requires
        0 <= a <= s.len(),
        forall|i: int| 0 <= i < a ==> is_ws_char(s[i]),
        a == s.len() || !is_ws_char(s[a]),
    ensures
        spec_trim_start(s) == s.skip(a),
    decreases a,
{
    if a == 0 {
        assert(s.skip(0) =~= s);
    } else {
        lemma_trim_start_skip(s.drop_first(), a - 1);
        assert(s.drop_first().skip(a - 1) =~= s.skip(a));
    }
}

proof fn lemma_trim_end_take(s: Seq<char>, b: int)
    requires
        0 <= b <= s.len(),
        forall|i: int| b <= i < s.len() ==> is_ws_char(s[i]),
        b == 0 || !is_ws_char(s[b - 1]),
    ensures
        spec_trim_end(s) == s.take(b),
    decreases s.len(),
{
    if b == s.len() {
        if s.len() > 0 && is_ws_char(s[s.len() - 1]) {
            assert(!is_ws_char(s[b - 1]));
        }
        assert(s.take(b) =~= s);
    } else {
        lemma_trim_end_take(s.drop_last(), b);
        assert(s.drop_last().take(b) =~= s.take(b));
    }
}

/// Whether `c` is ASCII whitespace; executable twin of `is_ws_char`.
fn is_ws(c: char) -> (b: bool)
    ensures
        b == is_ws_char(c),
{
    c == ' ' || c == '\t' || c == '\n' || c == '\r' || c == '\u{b}' || c == '\u{c}'
}

/// Copies `v[from..to]` into a fresh vector.
pub fn subrange_chars(v: &Vec<char>, from: usize, to: usize) -> (r: Vec<char>)
    requires
        from <= to <= v@.len(),
    ensures
        r@ == v@.subrange(from as int, to as int),
{
    let mut r: Vec<char> = Vec::new();
    let mut i: usize = from;
    while i < to
        invariant
            from <= i <= to <= v@.len(),
            r@ == v@.subrange(from as int, i as int),
        decreases to - i,
    {
        r.push(v[i]);
        assert(r@ =~= v@.subrange(from as int, i + 1));
        i += 1;
    }
    r
}

/// Removes whitespace from both ends of `v`.
pub fn trim_chars(v: &Vec<char>) -> (r: Vec<char>)
    ensures
        r@ == spec_trim(v@),
{
    let n = v.len();
    let mut a: usize = 0;
    while a < n && is_ws(v[a])
        invariant
            0 <= a <= n == v@.len(),
            forall|i: int| 0 <= i < a ==> is_ws_char(v@[i]),
        decreases n - a,
    {
        a += 1;
    }
    proof {
        lemma_trim_start_skip(v@, a as int);
    }
    let mut b: usize = n;
    while b > a && is_ws(v[b - 1])
        invariant
            a <= b <= n == v@.len(),
            forall|i: int| b <= i < n ==> is_ws_char(v@[i]),
        decreases b,
    {
        b -= 1;
    }
    proof {
        let t = v@.skip(a as int);
        lemma_trim_end_take(t, b - a);
        assert(t.take(b - a) =~= v@.subrange(a as int, b as int));
    }
    subrange_chars(v, a, b)
}

/// The characters of `s`, in order, as a vector.
pub fn str_to_chars(s: &str) -> (v: Vec<char>)
    ensures
        v@ == s@,
{
    let n = s.unicode_len();
    let mut v: Vec<char> = Vec::new();
    let mut i: usize = 0;
    while i < n
        invariant
            0 <= i <= n == s@.len(),
            v@ == s@.take(i as int),
        decreases n - i,
    {
        v.push(s.get_char(i));
        assert(v@ =~= s@.take(i + 1));
        i += 1;
    }
    assert(s@.take(n as int) =~= s@);
    v
}

/// Relies on `String`'s `FromIterator<char>` implementation: collecting an
/// iterator of characters yields the string of exactly those characters.
#[verifier::external_body]
pub(crate) fn chars_to_string(v: &Vec<char>) -> (s: String)
    ensures
        s@ == v@,
{
    v.iter().collect()
}

/// Whether the characters of `v` are exactly those of `s`.
pub fn chars_eq_str(v: &Vec<char>, s: &str) -> (b: bool)
    ensures
        b == (v@ == s@),
{
    let n = s.unicode_len();
    if v.len() != n {
        return false;
    }
    let mut i: usize = 0;
    while i < n
        invariant
            0 <= i <= n == s@.len(),
            v@.len() == n,
            forall|j: int| 0 <= j < i ==> v@[j] == s@[j],
        decreases n - i,
    {
        if v[i] != s.get_char(i) {
            return false;
        }
        i += 1;
    }
    assert(v@ =~= s@);
    true
}

/// `s` split at every occurrence of `c1` or `c2`, keeping empty pieces,
/// as Rust's `str::split` with a character class does.
pub open spec fn spec_split2(s: Seq<char>, c1: char, c2: char) -> Seq<Seq<char>>
    decreases s.len(),
{
    if s.len() == 0 {
        seq![s]
    } else if s[0] == c1 || s[0] == c2 {
        seq![Seq::<char>::empty()] + spec_split2(s.drop_first(), c1, c2)
    } else {
        let rest = spec_split2(s.drop_first(), c1, c2);
        seq![seq![s[0]] + rest[0]] + rest.drop_first()
    }
}

proof fn lemma_split2_len(s: Seq<char>, c1: char, c2: char)
    ensures
        spec_split2(s, c1, c2).len() >= 1,
    decreases s.len(),
{
    if s.len() > 0 {
        lemma_split2_len(s.drop_first(), c1, c2);
    }
}

/// If no separator occurs in the first `k` characters of `s`, splitting `s`
/// prepends those characters to the first piece of splitting `s.skip(k)`.
proof fn lemma_split2_prefix(s: Seq<char>, c1: char, c2: char, k: int)
    requires
        0 <= k <= s.len(),
        forall|p: int| 0 <= p < k ==> s[p] != c1 && s[p] != c2,
    ensures
        spec_split2(s, c1, c2) == seq![s.take(k) + spec_split2(s.skip(k), c1, c2)[0]]
            + spec_split2(s.skip(k), c1, c2).drop_first(),
    decreases k,
{
    lemma_split2_len(s.skip(k), c1, c2);
    if k == 0 {
        assert(s.skip(0) =~= s);
        assert(s.take(0) + spec_split2(s, c1, c2)[0] =~= spec_split2(s, c1, c2)[0]);
        assert(seq![spec_split2(s, c1, c2)[0]] + spec_split2(s, c1, c2).drop_first() =~= spec_split2(
            s,
            c1,
            c2,
        ));
    } else {
        let t = s.drop_first();
        assert(forall|p: int| 0 <= p < k - 1 ==> t[p] != c1 && t[p] != c2);
        lemma_split2_prefix(t, c1, c2, k - 1);
        assert(t.skip(k - 1) =~= s.skip(k));
        let rest = spec_split2(t, c1, c2);
        let tail = spec_split2(s.skip(k), c1, c2);
        assert(rest == seq![t.take(k - 1) + tail[0]] + tail.drop_first());
        assert(rest[0] == t.take(k - 1) + tail[0]);
        assert(seq![s[0]] + rest[0] =~= s.take(k) + tail[0]);
        assert(rest.drop_first() =~= tail.drop_first());
    }
}

/// Splits `v` at every occurrence of `c1` or `c2`, keeping empty pieces.
pub fn split2_chars(v: &Vec<char>, c1: char, c2: char) -> (r: Vec<Vec<char>>)
    ensures
        r.deep_view() == spec_split2(v@, c1, c2),
{
    let n = v.len();
    let mut r: Vec<Vec<char>> = Vec::new();
    let mut cur: Vec<char> = Vec::new();
    let mut j: usize = 0;
    let mut i: usize = 0;
    proof {
        assert(v@.skip(0) =~= v@);
        assert(r.deep_view() + spec_split2(v@.skip(0), c1, c2) =~~= spec_split2(v@, c1, c2));
    }
    while i < n
        invariant
            0 <= j <= i <= n == v@.len(),
            cur@ == v@.subrange(j as int, i as int),
            forall|p: int| j <= p < i ==> v@[p] != c1 && v@[p] != c2,
            spec_split2(v@, c1, c2) == r.deep_view() + spec_split2(v@.skip(j as int), c1, c2),
        decreases n - i,
    {
        proof {
            let t = v@.skip(j as int);
            assert(forall|p: int| 0 <= p < i - j ==> t[p] != c1 && t[p] != c2);
            lemma_split2_prefix(t, c1, c2, i - j);
            assert(t.take(i - j) =~= cur@);
            assert(t.skip(i - j) =~= v@.skip(i as int));
        }
        if v[i] == c1 || v[i] == c2 {
            proof {
                let u = v@.skip(i as int);
                assert(u[0] == v@[i as int]);
                assert(u.drop_first() =~= v@.skip(i + 1));
                let tail = spec_split2(v@.skip(i + 1), c1, c2);
                assert(spec_split2(u, c1, c2) == seq![Seq::<char>::empty()] + tail);
                assert(cur@ + Seq::<char>::empty() =~= cur@);
            }
            let ghost prev = r.deep_view();
            let ghost curv = cur@;
            r.push(cur);
            proof {
                assert(r.deep_view() =~~= prev + seq![curv]);
                let tail = spec_split2(v@.skip(i + 1), c1, c2);
                assert(prev + (seq![curv] + tail) =~= (prev + seq![curv]) + tail);
            }
            cur = Vec::new();
            j = i + 1;
            assert(cur@ =~= v@.subrange(j as int, i + 1));
        } else {
            cur.push(v[i]);
            assert(cur@ =~= v@.subrange(j as int, i + 1));
        }
        i += 1;
    }
    proof {
        let t = v@.skip(j as int);
        assert(forall|p: int| 0 <= p < n - j ==> t[p] != c1 && t[p] != c2);
        lemma_split2_prefix(t, c1, c2, n - j);
        assert(t.skip(n - j) =~= Seq::<char>::empty());
        assert(spec_split2(Seq::<char>::empty(), c1, c2) == seq![Seq::<char>::empty()]);
        assert(t.take(n - j) =~= cur@);
        assert(cur@ + Seq::<char>::empty() =~= cur@);
        assert(spec_split2(t, c1, c2) =~= seq![cur@]);
    }
    let ghost before = r.deep_view();
    let ghost curv = cur@;
    r.push(cur);
    proof {
        assert(r.deep_view() =~~= before + seq![curv]);
        assert(before + seq![curv] =~= spec_split2(v@, c1, c2));
    }
    r
}

/// Whether `sep` occurs in `s` starting at position `p`.
pub open spec fn match_at(s: Seq<char>, sep: Seq<char>, p: int) -> bool {
    p + sep.len() <= s.len() && s.subrange(p, p + sep.len()) == sep
}

/// `s` split at each leftmost, non-overlapping occurrence of the separator
/// `sep`, keeping empty pieces, as Rust's `str::split` with a `&str` pattern.
pub open spec fn spec_split_sub(s: Seq<char>, sep: Seq<char>) -> Seq<Seq<char>>
    decreases s.len(),
{
    if sep.len() == 0 || s.len() < sep.len() {
        seq![s]
    } else if s.take(sep.len() as int) == sep {
        seq![Seq::<char>::empty()] + spec_split_sub(s.skip(sep.len() as int), sep)
    } else {
        let rest = spec_split_sub(s.drop_first(), sep);
        seq![seq![s[0]] + rest[0]] + rest.drop_first()
    }
}

proof fn lemma_split_sub_len(s: Seq<char>, sep: Seq<char>)
    ensures
        spec_split_sub(s, sep).len() >= 1,
    decreases s.len(),
{
    if !(sep.len() == 0 || s.len() < sep.len()) {
        if s.take(sep.len() as int) == sep {
            lemma_split_sub_len(s.skip(sep.len() as int), sep);
        } else {
            lemma_split_sub_len(s.drop_first(), sep);
        }
    }
}

/// If no occurrence of `sep` starts in the first `k` positions of `s`,
/// splitting `s` prepends those characters to the first piece of splitting
/// `s.skip(k)`.
proof fn lemma_split_sub_prefix(s: Seq<char>, sep: Seq<char>, k: int)
    requires
        sep.len() >= 1,
        0 <= k <= s.len(),
        forall|p: int| 0 <= p < k ==> !match_at(s, sep, p),
    ensures
        spec_split_sub(s, sep) == seq![s.take(k) + spec_split_sub(s.skip(k), sep)[0]]
            + spec_split_sub(s.skip(k), sep).drop_first(),
    decreases k,
{
    lemma_split_sub_len(s.skip(k), sep);
    if k == 0 {
        assert(s.skip(0) =~= s);
        assert(s.take(0) + spec_split_sub(s, sep)[0] =~= spec_split_sub(s, sep)[0]);
        assert(seq![spec_split_sub(s, sep)[0]] + spec_split_sub(s, sep).drop_first()
            =~= spec_split_sub(s, sep));
    } else if s.len() < sep.len() {
        assert(s.skip(k).len() < sep.len());
        assert(spec_split_sub(s.skip(k), sep) == seq![s.skip(k)]);
        assert(s.take(k) + s.skip(k) =~= s);
        assert(seq![s.take(k) + s.skip(k)] + spec_split_sub(s.skip(k), sep).drop_first()
            =~= seq![s]);
    } else {
        assert(!match_at(s, sep, 0));
        assert(s.take(sep.len() as int) =~= s.subrange(0, sep.len() as int));
        assert(s.take(sep.len() as int) != sep);
        let t = s.drop_first();
        assert forall|p: int| 0 <= p < k - 1 implies !match_at(t, sep, p) by {
            assert(!match_at(s, sep, p + 1));
            if p + sep.len() <= t.len() {
                assert(t.subrange(p, p + sep.len()) =~= s.subrange(p + 1, p + 1 + sep.len()));
            }
        }
        lemma_split_sub_prefix(t, sep, k - 1);
        assert(t.skip(k - 1) =~= s.skip(k));
        let rest = spec_split_sub(t, sep);
        let tail = spec_split_sub(s.skip(k), sep);
        assert(rest[0] == t.take(k - 1) + tail[0]);
        assert(seq![s[0]] + rest[0] =~= s.take(k) + tail[0]);
        assert(rest.drop_first() =~= tail.drop_first());
    }
}

/// Whether `sep` occurs in `v` starting at position `i`.
fn window_match(v: &Vec<char>, i: usize, sep: &Vec<char>) -> (b: bool)
    requires
        i <= v@.len(),
    ensures
        b == match_at(v@, sep@, i as int),
{
    let m = sep.len();
    let n = v.len();
    if n - i < m {
        return false;
    }
    let mut q: usize = 0;
    while q < m
        invariant
            0 <= q <= m == sep@.len(),
            i + m <= n == v@.len(),
            forall|j: int| 0 <= j < q ==> v@[i + j] == sep@[j],
        decreases m - q,
    {
        if v[i + q] != sep[q] {
            assert(v@.subrange(i as int, i + m) != sep@) by {
                assert(v@.subrange(i as int, i + m)[q as int] != sep@[q as int]);
            }
            return false;
        }
        q += 1;
    }
    assert(v@.subrange(i as int, i + m) =~= sep@);
    true
}

/// Splits `v` at each leftmost, non-overlapping occurrence of `sep`.
pub fn split_sub_chars(v: &Vec<char>, sep: &Vec<char>) -> (r: Vec<Vec<char>>)
    requires
        sep@.len() >= 1,
    ensures
        r.deep_view() == spec_split_sub(v@, sep@),
{
    let n = v.len();
    let m = sep.len();
    let mut r: Vec<Vec<char>> = Vec::new();
    let mut j: usize = 0;
    let mut i: usize = 0;
    proof {
        assert(v@.skip(0) =~= v@);
        assert(r.deep_view() + spec_split_sub(v@.skip(0), sep@) =~~= spec_split_sub(v@, sep@));
    }
    while i < n
        invariant
            0 <= j <= i <= n == v@.len(),
            1 <= m == sep@.len(),
            forall|p: int| j <= p < i ==> !match_at(v@, sep@, p),
            spec_split_sub(v@, sep@) == r.deep_view() + spec_split_sub(v@.skip(j as int), sep@),
        decreases n - i,
    {
        proof {
            let t = v@.skip(j as int);
            assert forall|p: int| 0 <= p < i - j implies !match_at(t, sep@, p) by {
                assert(!match_at(v@, sep@, p + j));
                if p + sep@.len() <= t.len() {
                    assert(t.subrange(p, p + sep@.len()) =~= v@.subrange(
                        p + j,
                        p + j + sep@.len(),
                    ));
                }
            }
            lemma_split_sub_prefix(t, sep@, i - j);
            assert(t.take(i - j) =~= v@.subrange(j as int, i as int));
            assert(t.skip(i - j) =~= v@.skip(i as int));
        }
        if window_match(v, i, sep) {
            proof {
                let u = v@.skip(i as int);
                assert(u.take(m as int) =~= v@.subrange(i as int, i + m));
                assert(u.take(m as int) == sep@);
                assert(u.skip(m as int) =~= v@.skip(i + m));
                let tail = spec_split_sub(v@.skip(i + m), sep@);
                assert(spec_split_sub(u, sep@) == seq![Seq::<char>::empty()] + tail);
                let piece = v@.subrange(j as int, i as int);
                assert(piece + Seq::<char>::empty() =~= piece);
            }
            let piece = subrange_chars(v, j, i);
            let ghost prev = r.deep_view();
            let ghost piecev = piece@;
            r.push(piece);
            proof {
                assert(r.deep_view() =~~= prev + seq![piecev]);
                let tail = spec_split_sub(v@.skip(i + m), sep@);
                assert(prev + (seq![piecev] + tail) =~= (prev + seq![piecev]) + tail);
            }
            i = i + m;
            j = i;
        } else {
            i += 1;
        }
    }
    proof {
        let t = v@.skip(j as int);
        assert forall|p: int| 0 <= p < n - j implies !match_at(t, sep@, p) by {
            assert(!match_at(v@, sep@, p + j));
            if p + sep@.len() <= t.len() {
                assert(t.subrange(p, p + sep@.len()) =~= v@.subrange(p + j, p + j + sep@.len()));
            }
        }
        lemma_split_sub_prefix(t, sep@, n - j);
        let e = t.skip(t.len() as int);
        assert(e =~= Seq::<char>::empty());
        assert(spec_split_sub(e, sep@) == seq![e]);
        assert(t.take(t.len() as int) + e =~= v@.subrange(j as int, n as int));
        assert(spec_split_sub(t, sep@) =~= seq![v@.subrange(j as int, n as int)]);
    }
    let piece = subrange_chars(v, j, n);
    let ghost before = r.deep_view();
    r.push(piece);
    proof {
        assert(r.deep_view() =~~= before + seq![v@.subrange(j as int, n as int)]);
        assert(before + seq![v@.subrange(j as int, n as int)] =~= spec_split_sub(v@, sep@));
    }
    r
}

/// A line with a trailing carriage return removed, as Rust's `str::lines`
/// strips it from a `\r\n`-terminated line.
pub open spec fn strip_cr(l: Seq<char>) -> Seq<char> {
    if l.len() > 0 && l[l.len() - 1] == '\r' {
        l.drop_last()
    } else {
        l
    }
}

/// The lines of `s`, as Rust's `str::lines` yields them: split on newlines,
/// with a final empty piece after a trailing newline omitted. A carriage
/// return is stripped only as part of a `\r\n` ending, so a final line
/// without a newline keeps a bare trailing `\r`.
pub open spec fn spec_lines(s: Seq<char>) -> Seq<Seq<char>> {
    if s.len() == 0 {
        Seq::<Seq<char>>::empty()
    } else {
        let ended = s[s.len() - 1] == '\n';
        let base = if ended {
            s.drop_last()
        } else {
            s
        };
        let parts = spec_split2(base, '\n', '\n');
        Seq::new(
            parts.len(),
            |i: int|
                if i < parts.len() - 1 || ended {
                    strip_cr(parts[i])
                } else {
                    parts[i]
                },
        )
    }
}

/// Copies `v` with a trailing carriage return removed, if any.
fn strip_cr_chars(v: &Vec<char>) -> (r: Vec<char>)
    ensures
        r@ == strip_cr(v@),
{
    let n = v.len();
    if n > 0 && v[n - 1] == '\r' {
        let b = subrange_chars(v, 0, n - 1);
        proof {
            assert(v@.subrange(0, n - 1) =~= v@.drop_last());
        }
        b
    } else {
        let b = subrange_chars(v, 0, n);
        proof {
            assert(v@.subrange(0, n as int) =~= v@);
        }
        b
    }
}

/// The lines of `v`, as Rust's `str::lines` yields them.
pub fn lines_of(v: &Vec<char>) -> (r: Vec<Vec<char>>)
    ensures
        r.deep_view() == spec_lines(v@),
{
    let n = v.len();
    if n == 0 {
        let r: Vec<Vec<char>> = Vec::new();
        assert(r.deep_view() =~= spec_lines(v@));
        return r;
    }
    let ended = v[n - 1] == '\n';
    let base: Vec<char> = if ended {
        let b = subrange_chars(v, 0, n - 1);
        proof {
            assert(v@.subrange(0, n - 1) =~= v@.drop_last());
        }
        b
    } else {
        let b = subrange_chars(v, 0, n);
        proof {
            assert(v@.subrange(0, n as int) =~= v@);
        }
        b
    };
    let parts = split2_chars(&base, '\n', '\n');
    let ghost partsv = parts.deep_view();
    let ghost linesv = spec_lines(v@);
    let mut r: Vec<Vec<char>> = Vec::new();
    let mut i: usize = 0;
    let len = parts.len();
    let mut parts = parts;
    assert(len == partsv.len()) by {
        assert(parts.deep_view().len() == parts@.len());
    }
    proof {
        assert(linesv.len() == partsv.len());
        assert(r.deep_view() =~= linesv.take(0));
    }
    while i < len
        invariant
            0 <= i <= len == parts@.len(),
            parts.deep_view() == partsv,
            linesv == spec_lines(v@),
            linesv.len() == len,
            forall|q: int|
                0 <= q < len ==> linesv[q] == (if q < len - 1 || ended {
                    strip_cr(partsv[q])
                } else {
                    partsv[q]
                }),
            r.deep_view() == linesv.take(i as int),
        decreases len - i,
    {
        proof {
            assert(parts@[i as int].deep_view() == partsv[i as int]);
            assert(parts@[i as int].deep_view() =~= parts@[i as int]@);
        }
        let ghost prev = r.deep_view();
        let piece: Vec<char> = if i + 1 < len || ended {
            strip_cr_chars(&parts[i])
        } else {
            let p = &parts[i];
            let b = subrange_chars(p, 0, p.len());
            proof {
                assert(p@.subrange(0, p@.len() as int) =~= p@);
            }
            b
        };
        proof {
            assert(piece@ == linesv[i as int]);
        }
        r.push(piece);
        proof {
            assert(r.deep_view() =~~= prev + seq![linesv[i as int]]);
            assert(linesv.take(i + 1) =~= linesv.take(i as int) + seq![linesv[i as int]]);
        }
        i += 1;
    }
    proof {
        assert(linesv.take(len as int) =~= linesv);
    }
    r
}

/// The position of the first occurrence of `c` in `s`.
pub open spec fn spec_find(s: Seq<char>, c: char) -> Option<int>
    decreases s.len(),
{
    if s.len() == 0 {
        None
    } else if s[0] == c {
        Some(0)
    } else {
        match spec_find(s.drop_first(), c) {
            Some(i) => Some(i + 1),
            None => None,
        }
    }
}

proof fn lemma_find_at(s: Seq<char>, c: char, i: int)
    requires
        0 <= i < s.len(),
        s[i] == c,
        forall|j: int| 0 <= j < i ==> s[j] != c,
    ensures
        spec_find(s, c) == Some(i),
    decreases i,
{
    if i > 0 {
        let t = s.drop_first();
        assert(forall|j: int| 0 <= j < i - 1 ==> t[j] != c);
        lemma_find_at(t, c, i - 1);
    }
}

proof fn lemma_find_none(s: Seq<char>, c: char)
    requires
        forall|j: int| 0 <= j < s.len() ==> s[j] != c,
    ensures
        spec_find(s, c) is None,
    decreases s.len(),
{
    if s.len() > 0 {
        let t = s.drop_first();
        assert(forall|j: int| 0 <= j < t.len() ==> t[j] != c);
        lemma_find_none(t, c);
    }
}

/// Finds the first occurrence of `c` in `v`.
pub fn find_char(v: &Vec<char>, c: char) -> (r: Option<usize>)
    ensures
        match r {
            Some(i) => spec_find(v@, c) == Some(i as int) && i < v@.len(),
            None => spec_find(v@, c) is None,
        },
{
    let n = v.len();
    let mut i: usize = 0;
    while i < n
        invariant
            0 <= i <= n == v@.len(),
            forall|j: int| 0 <= j < i ==> v@[j] != c,
        decreases n - i,
    {
        if v[i] == c {
            proof {
                lemma_find_at(v@, c, i as int);
            }
            return Some(i);
        }
        i += 1;
    }
    proof {
        lemma_find_none(v@, c);
    }
    None
}

/// The position of the last occurrence of `c` in `s`.
pub open spec fn spec_rfind(s: Seq<char>, c: char) -> Option<int>
    decreases s.len(),
{
    if s.len() == 0 {
        None
    } else if s[s.len() - 1] == c {
        Some(s.len() - 1)
    } else {
        spec_rfind(s.drop_last(), c)
    }
}

/// Finds the last occurrence of `c` in `v`.
pub fn rfind_char(v: &Vec<char>, c: char) -> (r: Option<usize>)
    ensures
        match r {
            Some(i) => spec_rfind(v@, c) == Some(i as int),
            None => spec_rfind(v@, c) is None,
        },
{
    let mut i = v.len();
    proof {
        assert(v@.take(v@.len() as int) =~= v@);
    }
    while i > 0
        invariant
            0 <= i <= v@.len(),
            spec_rfind(v@, c) == spec_rfind(v@.take(i as int), c),
        decreases i,
    {
        i -= 1;
        if v[i] == c {
            proof {
                assert(v@.take(i + 1)[i as int] == v@[i as int]);
            }
            return Some(i);
        }
        proof {
            assert(v@.take(i + 1).drop_last() =~= v@.take(i as int));
        }
    }
    proof {
        assert(v@.take(0) =~= Seq::<char>::empty());
    }
    None
}

/// Whether `c` is an ASCII decimal digit.
pub open spec fn is_digit_char(c: char) -> bool {
    48 <= c as u32 <= 57
}

/// The numeric value of the ASCII digit `c`.
pub open spec fn digit_val(c: char) -> int {
    c as u32 - 48
}

/// The ASCII digit for the value `d`.
pub open spec fn digit_char(d: int) -> char {
    if d == 0 {
        '0'
    } else if d == 1 {
        '1'
    } else if d == 2 {
        '2'
    } else if d == 3 {
        '3'
    } else if d == 4 {
        '4'
    } else if d == 5 {
        '5'
    } else if d == 6 {
        '6'
    } else if d == 7 {
        '7'
    } else if d == 8 {
        '8'
    } else {
        '9'
    }
}

/// Whether every character of `s` is an ASCII decimal digit.
pub open spec fn all_digits(s: Seq<char>) -> bool {
    forall|i: int| 0 <= i < s.len() ==> is_digit_char(s[i])
}

/// The value of a string of ASCII digits, most significant first.
pub open spec fn spec_digits_val(s: Seq<char>) -> int
    decreases s.len(),
{
    if s.len() == 0 {
        0
    } else {
        spec_digits_val(s.drop_last()) * 10 + digit_val(s[s.len() - 1])
    }
}

/// The value of `s` read as an optionally signed decimal integer, as Rust's
/// `i64::from_str` reads it, before the range check: an optional `+` or `-`,
/// then one or more digits, nothing else.
pub open spec fn spec_parse_int(s: Seq<char>) -> Option<int> {
    let signed = s.len() > 0 && (s[0] == '+' || s[0] == '-');
    let body = if signed {
        s.drop_first()
    } else {
        s
    };
    if body.len() == 0 || !all_digits(body) {
        None
    } else if signed && s[0] == '-' {
        Some(-spec_digits_val(body))
    } else {
        Some(spec_digits_val(body))
    }
}

/// The value of `s` read as a decimal `i64`, as Rust's `i64::from_str`:
/// `None` on a malformed string or one whose value does not fit.
pub open spec fn spec_parse_i64(s: Seq<char>) -> Option<int> {
    match spec_parse_int(s) {
        Some(v) => if i64::MIN <= v <= i64::MAX {
            Some(v)
        } else {
            None
        },
        None => None,
    }
}

proof fn lemma_digits_val_nonneg(s: Seq<char>)
    requires
        all_digits(s),
    ensures
        spec_digits_val(s) >= 0,
    decreases s.len(),
{
    if s.len() > 0 {
        assert(all_digits(s.drop_last()));
        lemma_digits_val_nonneg(s.drop_last());
    }
}

proof fn lemma_digits_val_prefix_le(s: Seq<char>, k: int)
    requires
        all_digits(s),
        0 <= k <= s.len(),
    ensures
        spec_digits_val(s.take(k)) <= spec_digits_val(s),
    decreases s.len() - k,
{
    if k < s.len() {
        let t = s.take(k + 1);
        assert(all_digits(t));
        assert(t.drop_last() =~= s.take(k));
        assert(spec_digits_val(t) == spec_digits_val(s.take(k)) * 10 + digit_val(s[k]));
        lemma_digits_val_nonneg(s.take(k));
        lemma_digits_val_prefix_le(s, k + 1);
        assert(s.take(s.len() as int) =~= s);
    } else {
        assert(s.take(k) =~= s);
    }
}

/// Reads `v` as an optionally signed decimal `i64`, exactly as Rust's
/// `i64::from_str` would.
pub fn parse_i64_chars(v: &Vec<char>) -> (r: Option<i64>)
    ensures
        match r {
            Some(x) => spec_parse_i64(v@) == Some(x as int),
            None => spec_parse_i64(v@) is None,
        },
{
    let n = v.len();
    let mut start: usize = 0;
    let mut neg = false;
    if n > 0 && (v[0] == '+' || v[0] == '-') {
        neg = v[0] == '-';
        start = 1;
    }
    if start == n {
        return None;
    }
    let ghost body = if start == 1 {
        v@.drop_first()
    } else {
        v@
    };
    proof {
        if start == 1 {
            assert(body =~= v@.skip(1));
        } else {
            assert(body =~= v@.skip(0));
        }
    }
    let mut acc: u128 = 0;
    let mut i: usize = start;
    while i < n
        invariant
            start <= i <= n == v@.len(),
            start == 0 || start == 1,
            start == 1 ==> v@.len() > 0 && (v@[0] == '+' || v@[0] == '-'),
            start == 0 ==> v@.len() == 0 || !(v@[0] == '+' || v@[0] == '-'),
            body == v@.skip(start as int),
            body.len() == n - start,
            all_digits(body.take(i - start)),
            acc == spec_digits_val(body.take(i - start)),
            acc <= 0x8000_0000_0000_0000u128,
        decreases n - i,
    {
        let u = v[i] as u32;
        if u < 48 || u > 57 {
            proof {
                assert(body[i - start] == v@[i as int]);
                assert(!is_digit_char(body[i - start]));
                assert(!all_digits(body));
            }
            return None;
        }
        let d = (u - 48) as u128;
        acc = acc * 10 + d;
        proof {
            let t = body.take(i + 1 - start);
            assert(t.drop_last() =~= body.take(i - start));
            assert(t[t.len() - 1] == v@[i as int]);
            assert(all_digits(t));
            assert(digit_val(t[t.len() - 1]) == d);
            assert(acc == spec_digits_val(t));
        }
        i += 1;
        if acc > 0x8000_0000_0000_0000u128 {
            proof {
                assert(acc == spec_digits_val(body.take(i - start)));
                if start == 1 {
                    assert(v@.drop_first() =~= body);
                } else {
                    assert(v@.skip(0) =~= v@);
                }
                if all_digits(body) {
                    lemma_digits_val_prefix_le(body, i - start);
                    assert(spec_digits_val(body) >= acc > 0x8000_0000_0000_0000);
                    assert(spec_parse_i64(v@) is None);
                } else {
                    assert(spec_parse_i64(v@) is None);
                }
            }
            return None;
        }
    }
    proof {
        assert(body.take(n - start) =~= body);
        lemma_digits_val_nonneg(body);
    }
    if neg {
        if acc == 0x8000_0000_0000_0000u128 {
            Some(i64::MIN)
        } else {
            Some(-((acc as u64) as i64))
        }
    } else {
        if acc == 0x8000_0000_0000_0000u128 {
            None
        } else {
            Some((acc as u64) as i64)
        }
    }
}

/// The decimal digits of the nonnegative integer `n`.
pub open spec fn spec_dec_nat(n: nat) -> Seq<char>
    decreases n,
{
    if n < 10 {
        seq![digit_char(n as int)]
    } else {
        spec_dec_nat(n / 10) + seq![digit_char((n % 10) as int)]
    }
}

/// The decimal rendering of `n`, with a leading minus sign when negative.
pub open spec fn spec_dec_int(n: int) -> Seq<char> {
    if n < 0 {
        seq!['-'] + spec_dec_nat((-n) as nat)
    } else {
        spec_dec_nat(n as nat)
    }
}

/// The ASCII digit for the value `d`; executable twin of `digit_char`.
fn digit_to_char(d: u64) -> (c: char)
    requires
        d <= 9,
    ensures
        c == digit_char(d as int),
{
    if d == 0 {
        '0'
    } else if d == 1 {
        '1'
    } else if d == 2 {
        '2'
    } else if d == 3 {
        '3'
    } else if d == 4 {
        '4'
    } else if d == 5 {
        '5'
    } else if d == 6 {
        '6'
    } else if d == 7 {
        '7'
    } else if d == 8 {
        '8'
    } else {
        '9'
    }
}

/// The decimal digits of `n`.
pub fn dec_chars_u64(n: u64) -> (v: Vec<char>)
    ensures
        v@ == spec_dec_nat(n as nat),
    decreases n,
{
    if n < 10 {
        let mut v: Vec<char> = Vec::new();
        v.push(digit_to_char(n));
        assert(v@ =~= seq![digit_char(n as int)]);
        v
    } else {
        let mut v = dec_chars_u64(n / 10);
        let ghost prefix = v@;
        v.push(digit_to_char(n % 10));
        assert(v@ =~= prefix + seq![digit_char((n % 10) as int)]);
        v
    }
}

/// The decimal rendering of `n`, with a leading minus sign when negative.
pub fn dec_chars_i64(n: i64) -> (v: Vec<char>)
    ensures
        v@ == spec_dec_int(n as int),
{
    if n >= 0 {
        dec_chars_u64(n as u64)
    } else {
        let mag: u64 = if n == i64::MIN {
            0x8000_0000_0000_0000u64
        } else {
            (-n) as u64
        };
        assert(mag as int == -(n as int));
        let mut v: Vec<char> = Vec::new();
        v.push('-');
        let mut digits = dec_chars_u64(mag);
        let ghost dv = digits@;
        v.append(&mut digits);
        assert(v@ =~= seq!['-'] + dv);
        v
    }
}

/// Whether two string slices hold the same characters.
pub fn str_eq_str(a: &str, b: &str) -> (r: bool)
    ensures
        r == (a@ == b@),
{
    let n = a.unicode_len();
    if b.unicode_len() != n {
        return false;
    }
    let mut i: usize = 0;
    while i < n
        invariant
            0 <= i <= n == a@.len(),
            b@.len() == n,
            forall|j: int| 0 <= j < i ==> a@[j] == b@[j],
        decreases n - i,
    {
        if a.get_char(i) != b.get_char(i) {
            return false;
        }
        i += 1;
    }
    assert(a@ =~= b@);
    true
}

} // verus!
