//! Character-sequence utilities the protocol code is specified with:
//! prefix tests, substring search, line splitting, trimming and
//! lexicographic order, each with its mathematical definition.

use vstd::prelude::*;

verus! {

/// The pattern `p` occurs in `s` at position `i`.
pub open spec fn match_at(s: Seq<char>, p: Seq<char>, i: int) -> bool {
    0 <= i && i + p.len() <= s.len() && s.subrange(i, i + p.len() as int) == p
}

/// `s` begins with the pattern `p`.
pub open spec fn starts_with(s: Seq<char>, p: Seq<char>) -> bool {
    match_at(s, p, 0)
}

/// `p` occurs somewhere in `s`.
pub open spec fn contains_seq(s: Seq<char>, p: Seq<char>) -> bool {
    exists|i: int| match_at(s, p, i)
}

/// Whether the pattern `p` occurs in `s` at position `i`.
pub fn match_at_exec(s: &str, p: &str, i: usize) -> (b: bool)
    ensures
        b == match_at(s@, p@, i as int),
{
    let n = s.unicode_len();
    let m = p.unicode_len();
    if i > n || m > n - i {
        return false;
    }
    let mut j: usize = 0;
    while j < m
        invariant
            0 <= j <= m,
            m == p@.len(),
            n == s@.len(),
            i + m <= n,
            forall|k: int| 0 <= k < j ==> s@[i + k] == p@[k],
        decreases m - j,
    {
        if s.get_char(i + j) != p.get_char(j) {
            assert(s@.subrange(i as int, i + m) != p@) by {
                assert(s@.subrange(i as int, i + m)[j as int] != p@[j as int]);
            }
            return false;
        }
        j += 1;
    }
    assert(s@.subrange(i as int, i + m) =~= p@);
    true
}

/// Whether `s` begins with the pattern `p`.
pub fn str_starts_with(s: &str, p: &str) -> (b: bool)
    ensures
        b == starts_with(s@, p@),
{
    let m = p.unicode_len();
    if m > s.unicode_len() {
        return false;
    }
    match_at_exec(s, p, 0)
}

/// Position of the first occurrence of `p` in `s`, or -1 when there is none.
pub open spec fn find_first(s: Seq<char>, p: Seq<char>) -> int
    decreases s.len(),
{
    if p.len() > s.len() {
        -1
    } else if s.subrange(0, p.len() as int) == p {
        0
    } else if s.len() == 0 {
        -1
    } else {
        let r = find_first(s.drop_first(), p);
        if r < 0 {
            -1
        } else {
            r + 1
        }
    }
}

/// Occurrence of `p` in `s` at `i + 1` is occurrence in `s` without its head at `i`.
proof fn lemma_match_at_shift(s: Seq<char>, p: Seq<char>, i: int)
    requires
        s.len() > 0,
        0 <= i,
    ensures
        match_at(s, p, i + 1) == match_at(s.drop_first(), p, i),
{
    if i + 1 + p.len() <= s.len() {
        assert(s.subrange(i + 1, i + 1 + p.len() as int) =~= s.drop_first().subrange(
            i,
            i + p.len() as int,
        ));
    }
}

/// `find_first` returns the least matching position, or -1 when no position matches.
pub proof fn lemma_find_first(s: Seq<char>, p: Seq<char>)
    ensures
        find_first(s, p) == -1 ==> forall|i: int| !match_at(s, p, i),
        find_first(s, p) >= 0 ==> match_at(s, p, find_first(s, p)) && (forall|j: int|
            0 <= j < find_first(s, p) ==> !match_at(s, p, j)),
        find_first(s, p) >= 0 ==> find_first(s, p) + p.len() <= s.len(),
    decreases s.len(),
{
    if p.len() > s.len() {
        // no position can fit the pattern
    } else if s.subrange(0, p.len() as int) == p {
        // matches at 0
    } else if s.len() == 0 {
        assert(s.subrange(0, p.len() as int) =~= p);
    } else {
        lemma_find_first(s.drop_first(), p);
        let r = find_first(s.drop_first(), p);
        if r < 0 {
            assert forall|i: int| !match_at(s, p, i) by {
                if i > 0 {
                    lemma_match_at_shift(s, p, i - 1);
                }
            }
        } else {
            lemma_match_at_shift(s, p, r);
            assert forall|j: int| 0 <= j < r + 1 implies !match_at(s, p, j) by {
                if j > 0 {
                    lemma_match_at_shift(s, p, j - 1);
                }
            }
        }
    }
}

/// Position of the first occurrence of `p` in `s`, when there is one.
pub fn find_first_exec(s: &str, p: &str) -> (r: Option<usize>)
    ensures
        match r {
            Some(i) => find_first(s@, p@) == i as int,
            None => find_first(s@, p@) == -1,
        },
{
    proof {
        lemma_find_first(s@, p@);
    }
    let n = s.unicode_len();
    let m = p.unicode_len();
    if m > n {
        return None;
    }
    if m == 0 {
        proof {
            assert(s@.subrange(0, 0) =~= p@);
        }
        return Some(0);
    }
    let mut i: usize = 0;
    while i <= n - m
        invariant
            0 <= i <= n - m + 1,
            1 <= m <= n,
            n == s@.len(),
            m == p@.len(),
            forall|j: int| 0 <= j < i ==> !match_at(s@, p@, j),
        decreases n - i,
    {
        if match_at_exec(s, p, i) {
            proof {
                lemma_find_first(s@, p@);
                let ff = find_first(s@, p@);
                if ff < 0 {
                    assert(!match_at(s@, p@, i as int));
                } else if ff < i {
                    assert(!match_at(s@, p@, ff));
                }
            }
            return Some(i);
        }
        i += 1;
    }
    proof {
        lemma_find_first(s@, p@);
        let ff = find_first(s@, p@);
        if ff >= 0 {
            assert(!match_at(s@, p@, ff));
        }
    }
    None
}

/// Whether `p` occurs somewhere in `s`.
pub fn str_contains(s: &str, p: &str) -> (b: bool)
    ensures
        b == contains_seq(s@, p@),
{
    let r = find_first_exec(s, p);
    proof {
        lemma_find_first(s@, p@);
        if find_first(s@, p@) >= 0 {
            assert(contains_seq(s@, p@)) by {
                assert(match_at(s@, p@, find_first(s@, p@)));
            }
        }
    }
    r.is_some()
}

/// A line with a trailing carriage return loses it; any other line is kept.
pub open spec fn strip_cr(l: Seq<char>) -> Seq<char> {
    if l.len() > 0 && l.last() == '\r' {
        l.drop_last()
    } else {
        l
    }
}

/// The lines of `s`: segments split at `'\n'`, each stripped of one trailing
/// `'\r'`; a final segment without a newline is kept as it stands, and a
/// trailing newline yields no extra empty line.
pub open spec fn spec_lines(s: Seq<char>) -> Seq<Seq<char>>
    decreases s.len(),
    via spec_lines_dec
{
    if s.len() == 0 {
        Seq::empty()
    } else {
        let i = find_first(s, seq!['\n']);
        if i < 0 {
            seq![s]
        } else {
            seq![strip_cr(s.subrange(0, i))] + spec_lines(s.subrange(i + 1, s.len() as int))
        }
    }
}

#[via_fn]
proof fn spec_lines_dec(s: Seq<char>) {
    if s.len() > 0 {
        lemma_find_first(s, seq!['\n']);
    }
}

/// The lines of `s`, as owned strings.
pub fn split_lines(s: &str) -> (r: Vec<String>)
    ensures
        r@.len() == spec_lines(s@).len(),
        forall|i: int| 0 <= i < r@.len() ==> #[trigger] r@[i]@ == spec_lines(s@)[i],
    decreases s@.len(),
{
    let n = s.unicode_len();
    if n == 0 {
        return Vec::new();
    }
    proof {
        reveal_strlit("\n");
        assert("\n"@ =~= seq!['\n']);
        lemma_find_first(s@, seq!['\n']);
    }
    match find_first_exec(s, "\n") {
        None => {
            let mut r: Vec<String> = Vec::new();
            r.push(s.to_owned());
            assert(r@[0]@ == spec_lines(s@)[0]);
            r
        },
        Some(i) => {
            let ghost ii = i as int;
            let head = if i > 0 && s.get_char(i - 1) == '\r' {
                s.substring_char(0, i - 1)
            } else {
                s.substring_char(0, i)
            };
            proof {
                assert(match_at(s@, seq!['\n'], ii));
                if ii > 0 && s@[ii - 1] == '\r' {
                    assert(head@ =~= strip_cr(s@.subrange(0, ii)));
                } else {
                    assert(head@ =~= strip_cr(s@.subrange(0, ii)));
                }
            }
            let tail = s.substring_char(i + 1, n);
            let mut r = split_lines(tail);
            r.insert(0, head.to_owned());
            proof {
                let ls = spec_lines(s@);
                assert(ls == seq![strip_cr(s@.subrange(0, ii))] + spec_lines(tail@));
                assert(r@.len() == ls.len());
                assert forall|k: int| 0 <= k < r@.len() implies #[trigger] r@[k]@ == ls[k] by {
                    if k > 0 {
                        assert(r@[k]@ == spec_lines(tail@)[k - 1]);
                    }
                }
            }
            r
        },
    }
}

/// The characters trimmed away at a block's edges.
pub open spec fn is_ws(c: char) -> bool {
    c == ' ' || c == '\t' || c == '\n' || c == '\r'
}

/// `s` without leading whitespace.
pub open spec fn trim_front(s: Seq<char>) -> Seq<char>
    decreases s.len(),
{
    if s.len() > 0 && is_ws(s[0]) {
        trim_front(s.drop_first())
    } else {
        s
    }
}

/// `s` without trailing whitespace.
pub open spec fn trim_back(s: Seq<char>) -> Seq<char>
    decreases s.len(),
{
    if s.len() > 0 && is_ws(s.last()) {
        trim_back(s.drop_last())
    } else {
        s
    }
}

/// `s` without leading and trailing whitespace.
pub open spec fn spec_trim(s: Seq<char>) -> Seq<char> {
    trim_back(trim_front(s))
}

proof fn lemma_trim_front_subrange(s: Seq<char>, a: int)
    requires
        0 <= a <= s.len(),
        forall|j: int| 0 <= j < a ==> is_ws(s[j]),
        a == s.len() || !is_ws(s[a]),
    ensures
        trim_front(s) == s.subrange(a, s.len() as int),
    decreases a,
{
    if a == 0 {
        assert(s.subrange(0, s.len() as int) =~= s);
    } else {
        assert(is_ws(s[0]));
        lemma_trim_front_subrange(s.drop_first(), a - 1);
        assert(s.drop_first().subrange(a - 1, s.len() - 1) =~= s.subrange(a, s.len() as int));
    }
}

proof fn lemma_trim_back_subrange(s: Seq<char>, b: int)
    requires
        0 <= b <= s.len(),
        forall|j: int| b <= j < s.len() ==> is_ws(s[j]),
        b == 0 || !is_ws(s[b - 1]),
    ensures
        trim_back(s) == s.subrange(0, b),
    decreases s.len() - b,
{
    if b == s.len() {
        assert(s.subrange(0, b) =~= s);
    } else {
        assert(is_ws(s.last()));
        lemma_trim_back_subrange(s.drop_last(), b);
        assert(s.drop_last().subrange(0, b) =~= s.subrange(0, b));
    }
}

/// Whether `c` is one of the whitespace characters trimmed at a block's edges.
pub fn is_ws_exec(c: char) -> (r: bool)
    ensures
        r == is_ws(c),
{
    c == ' ' || c == '\t' || c == '\n' || c == '\r'
}

/// `s` with whitespace removed from both ends.
pub fn trim_exec(s: &str) -> (r: String)
    ensures
        r@ == spec_trim(s@),
{
    let n = s.unicode_len();
    let mut a: usize = 0;
    while a < n && is_ws_exec(s.get_char(a))
        invariant
            0 <= a <= n,
            n == s@.len(),
            forall|j: int| 0 <= j < a ==> is_ws(s@[j]),
        decreases n - a,
    {
        a += 1;
    }
    proof {
        lemma_trim_front_subrange(s@, a as int);
    }
    let mut b: usize = n;
    while b > a && is_ws_exec(s.get_char(b - 1))
        invariant
            a <= b <= n,
            n == s@.len(),
            forall|j: int| b <= j < n ==> is_ws(s@[j]),
        decreases b,
    {
        b -= 1;
    }
    proof {
        let t = trim_front(s@);
        assert(t == s@.subrange(a as int, n as int));
        assert forall|j: int| (b - a) <= j < t.len() implies is_ws(t[j]) by {
            assert(t[j] == s@[a + j]);
        }
        if b > a {
            assert(t[b - a - 1] == s@[b - 1]);
        }
        lemma_trim_back_subrange(t, b - a);
        assert(t.subrange(0, b - a) =~= s@.subrange(a as int, b as int));
    }
    let out = s.substring_char(a, b);
    out.to_owned()
}

/// Whether two string slices hold the same characters.
pub fn str_eq(a: &str, b: &str) -> (r: bool)
    ensures
        r == (a@ == b@),
{
    let n = a.unicode_len();
    if n != b.unicode_len() {
        return false;
    }
    let mut i: usize = 0;
    while i < n
        invariant
            0 <= i <= n,
            n == a@.len() == b@.len(),
            forall|k: int| 0 <= k < i ==> a@[k] == b@[k],
        decreases n - i,
    {
        if a.get_char(i) != b.get_char(i) {
            assert(a@ != b@) by {
                assert(a@[i as int] != b@[i as int]);
            }
            return false;
        }
        i += 1;
    }
    assert(a@ =~= b@);
    true
}

} // verus!

verus! {

/// Strict lexicographic order on character sequences, by scalar value.
pub open spec fn seq_lt(a: Seq<char>, b: Seq<char>) -> bool
    decreases a.len(),
{
    if b.len() == 0 {
        false
    } else if a.len() == 0 {
        true
    } else if a[0] < b[0] {
        true
    } else if b[0] < a[0] {
        false
    } else {
        seq_lt(a.drop_first(), b.drop_first())
    }
}

/// The order is irreflexive.
pub proof fn lemma_seq_lt_irrefl(a: Seq<char>)
    ensures
        !seq_lt(a, a),
    decreases a.len(),
{
    if a.len() > 0 {
        lemma_seq_lt_irrefl(a.drop_first());
    }
}

/// The order is total: two unordered sequences are equal.
pub proof fn lemma_seq_lt_connected(a: Seq<char>, b: Seq<char>)
    ensures
        !seq_lt(a, b) && !seq_lt(b, a) ==> a == b,
    decreases a.len(),
{
    if !seq_lt(a, b) && !seq_lt(b, a) {
        if a.len() == 0 {
            if b.len() > 0 {
                assert(seq_lt(a, b));
            }
            assert(a =~= b);
        } else {
            if b.len() == 0 {
                assert(seq_lt(b, a));
            }
            if a[0] < b[0] {
                assert(seq_lt(a, b));
            }
            if b[0] < a[0] {
                assert(seq_lt(b, a));
            }
            assert(a[0] == b[0]);
            assert(!seq_lt(a.drop_first(), b.drop_first()));
            assert(!seq_lt(b.drop_first(), a.drop_first()));
            lemma_seq_lt_connected(a.drop_first(), b.drop_first());
            assert(a.drop_first() == b.drop_first());
            assert(a.len() == b.len());
            assert forall|i: int| 0 <= i < a.len() implies a[i] == b[i] by {
                if i >= 1 {
                    assert(a[i] == a.drop_first()[i - 1]);
                    assert(b[i] == b.drop_first()[i - 1]);
                }
            }
            assert(a =~= b);
        }
    }
}

/// The order is transitive.
pub proof fn lemma_seq_lt_trans(a: Seq<char>, b: Seq<char>, c: Seq<char>)
    ensures
        seq_lt(a, b) && seq_lt(b, c) ==> seq_lt(a, c),
    decreases a.len() + b.len() + c.len(),
{
    if seq_lt(a, b) && seq_lt(b, c) {
        if a.len() == 0 || b.len() == 0 || c.len() == 0 {
        } else {
            if !(a[0] < b[0]) && !(b[0] < a[0]) && !(b[0] < c[0]) && !(c[0] < b[0]) {
                lemma_seq_lt_trans(a.drop_first(), b.drop_first(), c.drop_first());
            }
        }
    }
}

proof fn lemma_seq_lt_skip(a: Seq<char>, b: Seq<char>, i: int)
    requires
        0 <= i <= a.len(),
        i <= b.len(),
        a.subrange(0, i) == b.subrange(0, i),
    ensures
        seq_lt(a, b) == seq_lt(a.subrange(i, a.len() as int), b.subrange(i, b.len() as int)),
    decreases i,
{
    if i == 0 {
        assert(a.subrange(0, a.len() as int) =~= a);
        assert(b.subrange(0, b.len() as int) =~= b);
    } else {
        assert(a[0] == b[0]) by {
            assert(a.subrange(0, i)[0] == a[0]);
            assert(b.subrange(0, i)[0] == b[0]);
        }
        assert(a.drop_first().subrange(0, i - 1) =~= b.drop_first().subrange(0, i - 1)) by {
            assert(forall|k: int|
                0 <= k < i - 1 ==> #[trigger] a.drop_first()[k] == a.subrange(0, i)[k + 1]
                    && #[trigger] b.drop_first()[k] == b.subrange(0, i)[k + 1]);
        }
        lemma_seq_lt_skip(a.drop_first(), b.drop_first(), i - 1);
        assert(a.drop_first().subrange(i - 1, a.len() - 1) =~= a.subrange(i, a.len() as int));
        assert(b.drop_first().subrange(i - 1, b.len() - 1) =~= b.subrange(i, b.len() as int));
        assert(seq_lt(a, b) == seq_lt(a.drop_first(), b.drop_first()));
    }
}

/// Whether `a` comes strictly before `b` in lexicographic order.
pub fn str_lt(a: &str, b: &str) -> (r: bool)
    ensures
        r == seq_lt(a@, b@),
{
    let na = a.unicode_len();
    let nb = b.unicode_len();
    let mut i: usize = 0;
    while i < na && i < nb
        invariant
            0 <= i <= na,
            i <= nb,
            na == a@.len(),
            nb == b@.len(),
            forall|k: int| 0 <= k < i ==> a@[k] == b@[k],
        decreases na - i,
    {
        let ca = a.get_char(i);
        let cb = b.get_char(i);
        if ca != cb {
            proof {
                assert(a@.subrange(0, i as int) =~= b@.subrange(0, i as int));
                lemma_seq_lt_skip(a@, b@, i as int);
                let ta = a@.subrange(i as int, na as int);
                let tb = b@.subrange(i as int, nb as int);
                assert(ta[0] == ca && tb[0] == cb);
            }
            return ca < cb;
        }
        i += 1;
    }
    proof {
        assert(a@.subrange(0, i as int) =~= b@.subrange(0, i as int));
        lemma_seq_lt_skip(a@, b@, i as int);
    }
    na < nb
}

} // verus!
