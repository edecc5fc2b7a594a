//! Character-sequence helpers shared by the compiler and the renderer, each
//! stated over `Seq<char>`.
use vstd::prelude::*;
use vstd::string::*;

verus! {

/// Strict lexicographic order on character sequences, comparing code points.
/// This is the order of Rust's `str` comparison (UTF-8 byte order agrees with
/// code-point order).
pub open spec fn seq_lt(a: Seq<char>, b: Seq<char>) -> bool
    decreases a.len(),
{
    if b.len() == 0 {
        false
    } else if a.len() == 0 {
        true
    } else if a[0] != b[0] {
        (a[0] as int) < (b[0] as int)
    } else {
        seq_lt(a.skip(1), b.skip(1))
    }
}

/// Non-strict form of `seq_lt`.
pub open spec fn seq_le(a: Seq<char>, b: Seq<char>) -> bool {
    a == b || seq_lt(a, b)
}

pub proof fn lemma_seq_lt_irreflexive(a: Seq<char>)
    ensures
        !seq_lt(a, a),
    decreases a.len(),
{
    if a.len() > 0 {
        lemma_seq_lt_irreflexive(a.skip(1));
    }
}

pub proof fn lemma_seq_lt_asymmetric(a: Seq<char>, b: Seq<char>)
    ensures
        !(seq_lt(a, b) && seq_lt(b, a)),
    decreases a.len(),
{
    if a.len() > 0 && b.len() > 0 && a[0] == b[0] {
        lemma_seq_lt_asymmetric(a.skip(1), b.skip(1));
    }
}

pub proof fn lemma_seq_lt_total(a: Seq<char>, b: Seq<char>)
    ensures
        a == b || seq_lt(a, b) || seq_lt(b, a),
    decreases a.len(),
{
    if a.len() > 0 && b.len() > 0 {
        if a[0] == b[0] {
            lemma_seq_lt_total(a.skip(1), b.skip(1));
            if a.skip(1) == b.skip(1) {
                assert(a =~= seq![a[0]] + a.skip(1));
                assert(b =~= seq![b[0]] + b.skip(1));
            }
        } else {
            assert((a[0] as int) != (b[0] as int));
        }
    } else if a.len() == 0 && b.len() == 0 {
        assert(a =~= b);
    }
}

pub proof fn lemma_seq_lt_transitive(a: Seq<char>, b: Seq<char>, c: Seq<char>)
    requires
        seq_lt(a, b),
        seq_lt(b, c),
    ensures
        seq_lt(a, c),
    decreases a.len(),
{
    if a.len() > 0 && a[0] == b[0] && b[0] == c[0] {
        lemma_seq_lt_transitive(a.skip(1), b.skip(1), c.skip(1));
    }
}

/// Equality of two string slices, character by character.
pub fn str_eq(a: &str, b: &str) -> (r: bool)
    ensures
        r == (a@ == b@),
{
    let n = a.unicode_len();
    let m = b.unicode_len();
    if n != m {
        return false;
    }
    let mut i: usize = 0;
    while i < n
        invariant
            n == a@.len(),
            m == b@.len(),
            n == m,
            i <= n,
            forall|k: int| 0 <= k < i ==> a@[k] == b@[k],
        decreases n - i,
    {
        if a.get_char(i) != b.get_char(i) {
            return false;
        }
        i += 1;
    }
    assert(a@ =~= b@);
    true
}

/// `seq_lt` on string slices.
pub fn str_lt(a: &str, b: &str) -> (r: bool)
    ensures
        r == seq_lt(a@, b@),
{
    let n = a.unicode_len();
    let m = b.unicode_len();
    let mut i: usize = 0;
    assert(a@.skip(0) =~= a@);
    assert(b@.skip(0) =~= b@);
    while i < n && i < m
        invariant
            n == a@.len(),
            m == b@.len(),
            i <= n,
            i <= m,
            seq_lt(a@, b@) == seq_lt(a@.skip(i as int), b@.skip(i as int)),
        decreases n - i,
    {
        let x = a.get_char(i);
        let y = b.get_char(i);
        if x != y {
            return (x as u32) < (y as u32);
        }
        assert(a@.skip(i as int).skip(1) =~= a@.skip(i + 1));
        assert(b@.skip(i as int).skip(1) =~= b@.skip(i + 1));
        i += 1;
    }
    i < m
}

/// The items joined with `sep` between neighbours.
pub open spec fn join_with(items: Seq<Seq<char>>, sep: Seq<char>) -> Seq<char>
    decreases items.len(),
{
    if items.len() == 0 {
        Seq::empty()
    } else if items.len() == 1 {
        items[0]
    } else {
        join_with(items.drop_last(), sep) + sep + items.last()
    }
}

/// Appends `item` to `out`, preceded by `sep` unless it is the first of `i` items.
pub fn push_joined(out: &mut String, item: &str, sep: &str, i: usize, Ghost(done): Ghost<Seq<Seq<char>>>)
    requires
        done.len() == i,
        old(out)@ == join_with(done, sep@),
    ensures
        final(out)@ == join_with(done.push(item@), sep@),
{
    assert(done.push(item@).drop_last() =~= done);
    if i == 0 {
        assert(done.push(item@).len() == 1);
        out.append(item);
        assert(final(out)@ =~= item@);
    } else {
        out.append(sep);
        out.append(item);
    }
}

/// The decimal digit for `d < 10`.
pub open spec fn digit_char(d: nat) -> char {
    if d == 0 { '0' } else if d == 1 { '1' } else if d == 2 { '2' } else if d == 3 { '3' }
    else if d == 4 { '4' } else if d == 5 { '5' } else if d == 6 { '6' } else if d == 7 { '7' }
    else if d == 8 { '8' } else { '9' }
}

/// Decimal text of a natural number, without leading zeros.
pub open spec fn decimal(n: nat) -> Seq<char>
    decreases n,
{
    if n < 10 {
        seq![digit_char(n)]
    } else {
        decimal(n / 10) + seq![digit_char(n % 10)]
    }
}

fn digit_str(d: u64) -> (r: &'static str)
    requires
        d < 10,
    ensures
        r@ == seq![digit_char(d as nat)],
{
    proof {
        reveal_strlit("0");
        reveal_strlit("1");
        reveal_strlit("2");
        reveal_strlit("3");
        reveal_strlit("4");
        reveal_strlit("5");
        reveal_strlit("6");
        reveal_strlit("7");
        reveal_strlit("8");
        reveal_strlit("9");
    }
    let r = if d == 0 { "0" } else if d == 1 { "1" } else if d == 2 { "2" } else if d == 3 { "3" }
    else if d == 4 { "4" } else if d == 5 { "5" } else if d == 6 { "6" } else if d == 7 { "7" }
    else if d == 8 { "8" } else { "9" };
    assert(r@ =~= seq![digit_char(d as nat)]);
    r
}

/// Decimal text of `n`.
pub fn decimal_string(n: u64) -> (r: String)
    ensures
        r@ == decimal(n as nat),
    decreases n,
{
    if n < 10 {
        String::from_str(digit_str(n))
    } else {
        let mut s = decimal_string(n / 10);
        s.append(digit_str(n % 10));
        s
    }
}

/// Whether `pat` occurs in `s` at position `i`.
pub open spec fn occurs_at(s: Seq<char>, pat: Seq<char>, i: int) -> bool {
    0 <= i && i + pat.len() <= s.len() && s.subrange(i, i + pat.len()) == pat
}

fn occurs_at_exec(s: &str, n: usize, pat: &str, m: usize, i: usize) -> (r: bool)
    requires
        n == s@.len(),
        m == pat@.len(),
        i <= n,
    ensures
        r == occurs_at(s@, pat@, i as int),
{
    if m > n - i {
        return false;
    }
    let mut k: usize = 0;
    while k < m
        invariant
            n == s@.len(),
            m == pat@.len(),
            i + m <= n,
            k <= m,
            forall|j: int| 0 <= j < k ==> s@[i + j] == pat@[j],
        decreases m - k,
    {
        if s.get_char(i + k) != pat.get_char(k) {
            assert(s@.subrange(i as int, i + m)[k as int] != pat@[k as int]);
            return false;
        }
        k += 1;
    }
    assert(s@.subrange(i as int, i + m) =~= pat@);
    true
}

/// Every occurrence of `pat` in `s`, scanning left to right without overlap,
/// replaced by `rep`. An empty pattern leaves `s` unchanged.
pub open spec fn replace_all(s: Seq<char>, pat: Seq<char>, rep: Seq<char>) -> Seq<char>
    decreases s.len(),
{
    if pat.len() == 0 || s.len() == 0 {
        s
    } else if occurs_at(s, pat, 0) {
        rep + replace_all(s.skip(pat.len() as int), pat, rep)
    } else {
        seq![s[0]] + replace_all(s.skip(1), pat, rep)
    }
}

/// `replace_all` on strings.
pub fn replace_all_str(s: &str, pat: &str, rep: &str) -> (r: String)
    ensures
        r@ == replace_all(s@, pat@, rep@),
{
    let n = s.unicode_len();
    let m = pat.unicode_len();
    if m == 0 {
        return String::from_str(s);
    }
    let mut out = String::new();
    let mut i: usize = 0;
    assert(s@.skip(0) =~= s@);
    while i < n
        invariant
            n == s@.len(),
            m == pat@.len(),
            m > 0,
            i <= n,
            replace_all(s@, pat@, rep@) == out@ + replace_all(s@.skip(i as int), pat@, rep@),
        decreases n - i,
    {
        let ghost rest = s@.skip(i as int);
        if occurs_at_exec(s, n, pat, m, i) {
            assert(rest.subrange(0, m as int) =~= s@.subrange(i as int, i + m));
            assert(rest.skip(m as int) =~= s@.skip(i + m));
            out.append(rep);
            i += m;
        } else {
            proof {
                if i + m <= n {
                    assert(rest.subrange(0, m as int) =~= s@.subrange(i as int, i + m));
                }
            }
            let c = s.substring_char(i, i + 1);
            assert(c@ =~= seq![rest[0]]);
            assert(rest.skip(1) =~= s@.skip(i + 1));
            out.append(c);
            i += 1;
        }
    }
    assert(s@.skip(n as int).len() == 0);
    assert(out@ + Seq::<char>::empty() =~= out@);
    out
}

/// Whether `c` is the upper-case ASCII form of `m`, or `m` itself; `m` is taken
/// to be no lower-case letter.
pub open spec fn upper_matches(c: char, m: char) -> bool {
    c == m || (97 <= (c as int) <= 122 && (c as int) == (m as int) + 32)
}

/// Whether the ASCII upper-case form of `s` holds `pat` at position `i`, where
/// `pat` holds no lower-case letter.
pub open spec fn occurs_upper_at(s: Seq<char>, pat: Seq<char>, i: int) -> bool {
    0 <= i && i + pat.len() <= s.len() && forall|k: int|
        0 <= k < pat.len() ==> upper_matches(#[trigger] s[i + k], pat[k])
}

/// Whether the ASCII upper-case form of `s` contains `pat`.
pub open spec fn contains_upper(s: Seq<char>, pat: Seq<char>) -> bool {
    exists|i: int| occurs_upper_at(s, pat, i)
}

fn upper_matches_exec(c: char, m: char) -> (r: bool)
    ensures
        r == upper_matches(c, m),
{
    c == m || ((c as u32) >= 97 && (c as u32) <= 122 && (c as u32) == (m as u32) + 32)
}

/// `contains_upper` on strings.
pub fn contains_upper_str(s: &str, pat: &str) -> (r: bool)
    ensures
        r == contains_upper(s@, pat@),
{
    let n = s.unicode_len();
    let m = pat.unicode_len();
    if m > n {
        assert(!contains_upper(s@, pat@));
        return false;
    }
    let mut i: usize = 0;
    while i <= n - m
        invariant
            n == s@.len(),
            m == pat@.len(),
            m <= n,
            i <= n - m + 1,
            forall|j: int| 0 <= j < i ==> !occurs_upper_at(s@, pat@, j),
        decreases n - m + 1 - i,
    {
        let mut k: usize = 0;
        let mut ok = true;
        while ok && k < m
            invariant
                n == s@.len(),
                m == pat@.len(),
                i + m <= n,
                k <= m,
                forall|j: int| 0 <= j < k ==> upper_matches(#[trigger] s@[i + j], pat@[j]),
                !ok ==> k < m && !upper_matches(s@[i + k], pat@[k as int]),
            decreases m - k + (if ok { 1int } else { 0int }),
        {
            if !upper_matches_exec(s.get_char(i + k), pat.get_char(k)) {
                ok = false;
            } else {
                k += 1;
            }
        }
        if ok {
            assert(occurs_upper_at(s@, pat@, i as int));
            return true;
        }
        i += 1;
    }
    assert forall|j: int| !occurs_upper_at(s@, pat@, j) by {
        if 0 <= j < i {
        } else if j >= i {
            assert(!(j + m <= n));
        }
    }
    false
}

/// Whether `c` occurs in `s`.
pub open spec fn has_char(s: Seq<char>, c: char) -> bool {
    exists|k: int| 0 <= k < s.len() && s[k] == c
}

/// `k` is the first position of `c` in `s`.
pub open spec fn is_first_index(s: Seq<char>, c: char, k: int) -> bool {
    0 <= k < s.len() && s[k] == c && forall|j: int| 0 <= j < k ==> s[j] != c
}

/// The first position of `c` in `s`, where `c` occurs there.
pub open spec fn first_index(s: Seq<char>, c: char) -> int {
    choose|k: int| is_first_index(s, c, k)
}

/// The part of `s` before the first `c`, or all of `s` where `c` does not occur.
pub open spec fn before_char(s: Seq<char>, c: char) -> Seq<char> {
    if has_char(s, c) {
        s.take(first_index(s, c))
    } else {
        s
    }
}

/// The part of `s` after the first `c`, where `c` occurs.
pub open spec fn after_char(s: Seq<char>, c: char) -> Seq<char> {
    s.skip(first_index(s, c) + 1)
}

/// Finds the first position of `c` in `s`.
pub fn find_char(s: &str, c: char) -> (r: Option<usize>)
    ensures
        r is None <==> !has_char(s@, c),
        r matches Some(k) ==> k == first_index(s@, c) && is_first_index(s@, c, k as int),
{
    let n = s.unicode_len();
    let mut i: usize = 0;
    while i < n
        invariant
            n == s@.len(),
            i <= n,
            forall|j: int| 0 <= j < i ==> s@[j] != c,
        decreases n - i,
    {
        if s.get_char(i) == c {
            assert(is_first_index(s@, c, i as int));
            let ghost k = first_index(s@, c);
            assert(is_first_index(s@, c, k));
            assert(k == i) by {
                if k < i {
                } else if k > i {
                }
            }
            return Some(i);
        }
        i += 1;
    }
    None
}

/// The part of `s` before the first `c` (all of `s` where there is none).
pub fn before_char_str(s: &str, c: char) -> (r: &str)
    ensures
        r@ == before_char(s@, c),
{
    match find_char(s, c) {
        Some(k) => {
            let r = s.substring_char(0, k);
            assert(r@ =~= s@.take(k as int));
            r
        },
        None => s,
    }
}

/// The part of `s` after the first `c`, where `c` occurs.
pub fn after_char_str(s: &str, c: char) -> (r: &str)
    requires
        has_char(s@, c),
    ensures
        r@ == after_char(s@, c),
{
    let n = s.unicode_len();
    match find_char(s, c) {
        Some(k) => {
            let r = s.substring_char(k + 1, n);
            assert(r@ =~= s@.skip(k + 1));
            r
        },
        None => s,
    }
}

/// `s` without its leading and trailing spaces.
pub open spec fn trim(s: Seq<char>) -> Seq<char> {
    trim_end(trim_start(s))
}

pub open spec fn trim_start(s: Seq<char>) -> Seq<char>
    decreases s.len(),
{
    if s.len() > 0 && s[0] == ' ' {
        trim_start(s.skip(1))
    } else {
        s
    }
}

pub open spec fn trim_end(s: Seq<char>) -> Seq<char>
    decreases s.len(),
{
    if s.len() > 0 && s.last() == ' ' {
        trim_end(s.drop_last())
    } else {
        s
    }
}

/// `trim` on a string slice.
pub fn trim_str(s: &str) -> (r: &str)
    ensures
        r@ == trim(s@),
{
    let n = s.unicode_len();
    let mut lo: usize = 0;
    assert(s@.skip(0) =~= s@);
    while lo < n && s.get_char(lo) == ' '
        invariant
            n == s@.len(),
            lo <= n,
            trim_start(s@) == trim_start(s@.skip(lo as int)),
        decreases n - lo,
    {
        assert(s@.skip(lo as int).skip(1) =~= s@.skip(lo + 1));
        lo += 1;
    }
    let mut hi: usize = n;
    assert(s@.subrange(lo as int, n as int) =~= s@.skip(lo as int));
    while hi > lo && s.get_char(hi - 1) == ' '
        invariant
            n == s@.len(),
            lo <= hi <= n,
            trim_start(s@) == s@.skip(lo as int),
            trim(s@) == trim_end(s@.subrange(lo as int, hi as int)),
        decreases hi - lo,
    {
        assert(s@.subrange(lo as int, hi as int).drop_last() =~= s@.subrange(lo as int, hi - 1));
        hi -= 1;
    }
    s.substring_char(lo, hi)
}

/// The least element of a non-empty sequence of texts under `seq_lt`.
pub open spec fn seq_least(s: Seq<Seq<char>>) -> Seq<char>
    decreases s.len(),
{
    if s.len() <= 1 {
        s[0]
    } else {
        let m = seq_least(s.drop_last());
        if seq_lt(s.last(), m) {
            s.last()
        } else {
            m
        }
    }
}

/// `m` belongs to `s` and no element of `s` is below it.
pub open spec fn is_least(s: Seq<Seq<char>>, m: Seq<char>) -> bool {
    s.contains(m) && forall|i: int| 0 <= i < s.len() ==> seq_le(m, #[trigger] s[i])
}

pub proof fn lemma_seq_least(s: Seq<Seq<char>>)
    requires
        s.len() > 0,
    ensures
        is_least(s, seq_least(s)),
    decreases s.len(),
{
    if s.len() == 1 {
        assert(s[0] == s[0]);
        assert(s.contains(s[0]));
    } else {
        let d = s.drop_last();
        lemma_seq_least(d);
        let m = seq_least(d);
        assert(d.contains(m));
        let k = choose|k: int| 0 <= k < d.len() && d[k] == m;
        assert(s[k] == m);
        if seq_lt(s.last(), m) {
            assert(s[s.len() - 1] == s.last());
            assert forall|i: int| 0 <= i < s.len() implies seq_le(s.last(), #[trigger] s[i]) by {
                if i < s.len() - 1 {
                    assert(d[i] == s[i]);
                    if s[i] != m {
                        lemma_seq_lt_transitive(s.last(), m, s[i]);
                    }
                }
            }
        } else {
            assert forall|i: int| 0 <= i < s.len() implies seq_le(m, #[trigger] s[i]) by {
                if i < s.len() - 1 {
                    assert(d[i] == s[i]);
                } else {
                    lemma_seq_lt_total(m, s.last());
                }
            }
        }
    }
}

/// The least element is the only one of its kind.
pub proof fn lemma_least_unique(s: Seq<Seq<char>>, m: Seq<char>)
    requires
        is_least(s, m),
    ensures
        seq_least(s) == m,
{
    lemma_seq_least(s);
    let n = seq_least(s);
    let i = choose|i: int| 0 <= i < s.len() && s[i] == n;
    let j = choose|j: int| 0 <= j < s.len() && s[j] == m;
    assert(seq_le(m, s[i]));
    assert(seq_le(n, s[j]));
    lemma_seq_lt_asymmetric(m, n);
}

/// Two sequences holding the same texts have the same least element.
pub proof fn lemma_least_same_elements(s: Seq<Seq<char>>, t: Seq<Seq<char>>)
    requires
        s.len() > 0,
        forall|x: Seq<char>| s.contains(x) <==> t.contains(x),
    ensures
        t.len() > 0,
        seq_least(s) == seq_least(t),
{
    lemma_seq_least(s);
    let m = seq_least(s);
    assert(t.contains(m));
    assert forall|i: int| 0 <= i < t.len() implies seq_le(m, #[trigger] t[i]) by {
        assert(s.contains(t[i]));
        let k = choose|k: int| 0 <= k < s.len() && s[k] == t[i];
        assert(seq_le(m, s[k]));
    }
    lemma_least_unique(t, m);
}

} // verus!
