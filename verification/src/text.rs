//! Character-level string utilities: equality, lexicographic order,
//! decimal parsing and formatting, joining, and input normalization.

use vstd::prelude::*;
use vstd::string::*;

verus! {

/// True exactly when the two string slices hold the same characters.
pub fn str_eq(a: &str, b: &str) -> (r: bool)
    ensures
        r == (a@ == b@),
{
    let la = a.unicode_len();
    let lb = b.unicode_len();
    if la != lb {
        return false;
    }
    let mut i: usize = 0;
    while i < la
        invariant
            la == a@.len(),
            la == b@.len(),
            0 <= i <= la,
            forall|j: int| 0 <= j < i ==> a@[j] == b@[j],
        decreases la - i,
    {
        if a.get_char(i) != b.get_char(i) {
            return false;
        }
        i += 1;
    }
    proof {
        assert(a@ =~= b@);
    }
    true
}

/// Strict lexicographic order on character sequences, by code point.
pub open spec fn lex_lt(a: Seq<char>, b: Seq<char>) -> bool
    decreases a.len(),
{
    if b.len() == 0 {
        false
    } else if a.len() == 0 {
        true
    } else if a[0] != b[0] {
        a[0] < b[0]
    } else {
        lex_lt(a.drop_first(), b.drop_first())
    }
}

/// A shared prefix does not affect the order of the remainders.
pub proof fn lemma_lex_lt_skip(a: Seq<char>, b: Seq<char>, i: int)
    requires
        0 <= i <= a.len(),
        i <= b.len(),
        forall|j: int| 0 <= j < i ==> a[j] == b[j],
    ensures
        lex_lt(a, b) == lex_lt(a.skip(i), b.skip(i)),
    decreases i,
{
    if i > 0 {
        assert(a.len() > 0 && b.len() > 0);
        assert(a[0] == b[0]);
        assert(forall|j: int|
            0 <= j < i - 1 ==> a.drop_first()[j] == b.drop_first()[j]);
        lemma_lex_lt_skip(a.drop_first(), b.drop_first(), i - 1);
        assert(a.drop_first().skip(i - 1) =~= a.skip(i));
        assert(b.drop_first().skip(i - 1) =~= b.skip(i));
    } else {
        assert(a.skip(0) =~= a);
        assert(b.skip(0) =~= b);
    }
}

/// The order is irreflexive.
pub proof fn lemma_lex_lt_irrefl(a: Seq<char>)
    ensures
        !lex_lt(a, a),
    decreases a.len(),
{
    if a.len() > 0 {
        lemma_lex_lt_irrefl(a.drop_first());
    }
}

/// Any two sequences are ordered one way or the other, or are equal.
pub proof fn lemma_lex_lt_connected(a: Seq<char>, b: Seq<char>)
    ensures
        lex_lt(a, b) || lex_lt(b, a) || a == b,
    decreases a.len(),
{
    if a.len() > 0 && b.len() > 0 && a[0] == b[0] {
        lemma_lex_lt_connected(a.drop_first(), b.drop_first());
        if a.drop_first() == b.drop_first() {
            assert forall|i: int| 0 <= i < a.len() implies a[i] == b[i] by {
                if i > 0 {
                    assert(a[i] == a.drop_first()[i - 1]);
                    assert(b[i] == b.drop_first()[i - 1]);
                }
            }
            assert(a =~= b);
        }
    }
}

/// The order is transitive.
pub proof fn lemma_lex_lt_trans(a: Seq<char>, b: Seq<char>, c: Seq<char>)
    requires
        lex_lt(a, b),
        lex_lt(b, c),
    ensures
        lex_lt(a, c),
    decreases a.len(),
{
    if a.len() > 0 && b.len() > 0 && c.len() > 0 {
        if a[0] == b[0] && b[0] == c[0] {
            lemma_lex_lt_trans(a.drop_first(), b.drop_first(), c.drop_first());
        }
    }
}

/// Decides the lexicographic order on two string slices.
pub fn str_lt(a: &str, b: &str) -> (r: bool)
    ensures
        r == lex_lt(a@, b@),
{
    let la = a.unicode_len();
    let lb = b.unicode_len();
    let min: usize = if la < lb { la } else { lb };
    let mut i: usize = 0;
    while i < min
        invariant
            la == a@.len(),
            lb == b@.len(),
            min == if la < lb { la } else { lb },
            0 <= i <= min,
            forall|j: int| 0 <= j < i ==> a@[j] == b@[j],
        decreases min - i,
    {
        let ca = a.get_char(i);
        let cb = b.get_char(i);
        if ca != cb {
            proof {
                lemma_lex_lt_skip(a@, b@, i as int);
            }
            return ca < cb;
        }
        i += 1;
    }
    proof {
        lemma_lex_lt_skip(a@, b@, min as int);
    }
    la < lb
}

/// True when `c` is an ASCII decimal digit.
pub open spec fn is_digit_char(c: char) -> bool {
    '0' <= c && c <= '9'
}

/// Numeric value of an ASCII digit character.
pub open spec fn digit_val(c: char) -> int {
    c as u32 - '0' as u32
}

/// True when every character of `s` is an ASCII decimal digit.
pub open spec fn all_digits(s: Seq<char>) -> bool {
    forall|i: int| 0 <= i < s.len() ==> is_digit_char(#[trigger] s[i])
}

/// Value of a sequence of digit characters read as a decimal numeral.
pub open spec fn dec_val(s: Seq<char>) -> int
    decreases s.len(),
{
    if s.len() == 0 {
        0
    } else {
        dec_val(s.drop_last()) * 10 + digit_val(s.last())
    }
}

/// What parsing `s` as an unsigned machine integer yields: the decimal
/// value when `s` is a non-empty run of digits whose value fits, else nothing.
pub open spec fn parsed_dec(s: Seq<char>) -> Option<int> {
    if s.len() > 0 && all_digits(s) && dec_val(s) <= usize::MAX as int {
        Some(dec_val(s))
    } else {
        None
    }
}

proof fn lemma_dec_val_take_step(s: Seq<char>, i: int)
    requires
        0 <= i < s.len(),
    ensures
        dec_val(s.take(i + 1)) == dec_val(s.take(i)) * 10 + digit_val(s[i]),
{
    assert(s.take(i + 1).drop_last() =~= s.take(i));
    assert(s.take(i + 1).last() == s[i]);
}

proof fn lemma_dec_val_nonneg(s: Seq<char>)
    requires
        all_digits(s),
    ensures
        dec_val(s) >= 0,
    decreases s.len(),
{
    if s.len() > 0 {
        assert(all_digits(s.drop_last())) by {
            assert(forall|i: int|
                0 <= i < s.len() - 1 ==> s.drop_last()[i] == s[i]);
        }
        lemma_dec_val_nonneg(s.drop_last());
    }
}

/// Every prefix of a digit run is worth no more than the whole run.
proof fn lemma_dec_val_prefix_le(s: Seq<char>, i: int)
    requires
        0 <= i <= s.len(),
        all_digits(s),
    ensures
        dec_val(s.take(i)) <= dec_val(s),
    decreases s.len() - i,
{
    if i < s.len() {
        lemma_dec_val_take_step(s, i);
        assert(all_digits(s.take(i))) by {
            assert(forall|j: int| 0 <= j < i ==> s.take(i)[j] == s[j]);
        }
        lemma_dec_val_nonneg(s.take(i));
        assert(dec_val(s.take(i)) * 10 >= dec_val(s.take(i))) by {
            lemma_dec_val_nonneg(s.take(i));
        }
        lemma_dec_val_prefix_le(s, i + 1);
    } else {
        assert(s.take(i) =~= s);
    }
}

/// Parses `s` as an unsigned decimal number, exactly when `s` is a
/// non-empty run of ASCII digits whose value fits in `usize`.
pub fn parse_dec(s: &str) -> (r: Option<usize>)
    ensures
        r matches Some(n) ==> parsed_dec(s@) == Some(n as int),
        r is None ==> parsed_dec(s@) is None,
{
    let len = s.unicode_len();
    if len == 0 {
        return None;
    }
    let mut i: usize = 0;
    let mut acc: usize = 0;
    while i < len
        invariant
            len == s@.len(),
            0 < len,
            0 <= i <= len,
            all_digits(s@.take(i as int)),
            acc as int == dec_val(s@.take(i as int)),
        decreases len - i,
    {
        let c = s.get_char(i);
        if c < '0' || c > '9' {
            assert(!is_digit_char(s@[i as int]));
            return None;
        }
        let d: u32 = c as u32 - 48;
        assert(d < 10);
        assert(all_digits(s@.take(i as int + 1))) by {
            assert(forall|j: int|
                0 <= j < i as int + 1 ==> s@.take(i as int + 1)[j] == s@[j]);
            assert(is_digit_char(s@[i as int]));
        }
        proof {
            lemma_dec_val_take_step(s@, i as int);
        }
        if acc > (usize::MAX - d as usize) / 10 {
            // The numeral no longer fits in a machine word.
            proof {
                assert(acc * 10 + d > usize::MAX) by (nonlinear_arith)
                    requires
                        acc > (usize::MAX - d as usize) / 10,
                        d < 10,
                        (usize::MAX - d as usize) / 10
                            == ((usize::MAX - d as usize) as int) / 10,
                {}
                if all_digits(s@) {
                    lemma_dec_val_prefix_le(s@, i as int + 1);
                }
            }
            return None;
        }
        assert(acc * 10 + d <= usize::MAX) by (nonlinear_arith)
            requires
                acc <= (usize::MAX - d as usize) / 10,
                d < 10,
                (usize::MAX - d as usize) / 10 == ((usize::MAX - d as usize) as int) / 10,
        {}
        acc = acc * 10 + (d as usize);
        i += 1;
    }
    proof {
        assert(s@.take(len as int) =~= s@);
    }
    Some(acc)
}

/// The digit character for a value below ten.
pub open spec fn digit_char(d: int) -> char {
    if d == 0 {
        '0'
    } else if d == 1 {
        '1'
    } else if d == 2 {
        '2'
    } else if d == 3 {
        '3'
    } else if d == 4 {
        '4'
    } else if d == 5 {
        '5'
    } else if d == 6 {
        '6'
    } else if d == 7 {
        '7'
    } else if d == 8 {
        '8'
    } else {
        '9'
    }
}

/// Decimal numeral of a non-negative number, most significant digit first.
pub open spec fn dec_str(n: int) -> Seq<char>
    decreases n,
{
    if n < 10 {
        seq![digit_char(n)]
    } else {
        dec_str(n / 10) + seq![digit_char(n % 10)]
    }
}

fn digit_str(d: usize) -> (r: &'static str)
    requires
        d < 10,
    ensures
        r@ == seq![digit_char(d as int)],
{
    let r: &'static str = if d == 0 {
        "0"
    } else if d == 1 {
        "1"
    } else if d == 2 {
        "2"
    } else if d == 3 {
        "3"
    } else if d == 4 {
        "4"
    } else if d == 5 {
        "5"
    } else if d == 6 {
        "6"
    } else if d == 7 {
        "7"
    } else if d == 8 {
        "8"
    } else {
        "9"
    };
    proof {
        reveal_strlit("0");
        reveal_strlit("1");
        reveal_strlit("2");
        reveal_strlit("3");
        reveal_strlit("4");
        reveal_strlit("5");
        reveal_strlit("6");
        reveal_strlit("7");
        reveal_strlit("8");
        reveal_strlit("9");
        assert(r@ =~= seq![digit_char(d as int)]);
    }
    r
}

/// Formats a number as its decimal numeral.
pub fn usize_to_string(n: usize) -> (r: String)
    ensures
        r@ == dec_str(n as int),
    decreases n,
{
    if n < 10 {
        let r = String::from_str(digit_str(n));
        proof {
            assert(r@ =~= dec_str(n as int));
        }
        r
    } else {
        let prefix = usize_to_string(n / 10);
        let r = prefix.concat(digit_str(n % 10));
        proof {
            assert(r@ =~= dec_str(n as int));
        }
        r
    }
}

/// The elements of `parts` joined with `sep` between consecutive entries.
pub open spec fn join_with(parts: Seq<Seq<char>>, sep: Seq<char>) -> Seq<char>
    decreases parts.len(),
{
    if parts.len() == 0 {
        Seq::empty()
    } else if parts.len() == 1 {
        parts[0]
    } else {
        join_with(parts.drop_last(), sep) + sep + parts.last()
    }
}

/// Joins the strings of `parts`, writing `sep` between consecutive entries.
pub fn join_strings(parts: &Vec<String>, sep: &str) -> (r: String)
    ensures
        r@ == join_with(parts.deep_view(), sep@),
{
    let ghost dv = parts.deep_view();
    let mut r = String::new();
    let mut i: usize = 0;
    while i < parts.len()
        invariant
            dv == parts.deep_view(),
            dv.len() == parts.len(),
            forall|j: int| 0 <= j < parts.len() ==> dv[j] == parts[j]@,
            0 <= i <= parts.len(),
            r@ == join_with(dv.take(i as int), sep@),
        decreases parts.len() - i,
    {
        if i > 0 {
            r.append(sep);
        }
        r.append(parts[i].as_str());
        proof {
            assert(dv.take(i + 1).drop_last() =~= dv.take(i as int));
            assert(dv.take(i + 1).last() == dv[i as int]);
            if i == 0 {
                assert(dv.take(1) =~= seq![dv[0]]);
                assert(r@ =~= dv[0]);
            }
        }
        i += 1;
    }
    proof {
        assert(dv.take(parts.len() as int) =~= dv);
    }
    r
}

/// True when `needle` occurs somewhere in `hay` as a contiguous run.
pub open spec fn contains_seq(hay: Seq<char>, needle: Seq<char>) -> bool {
    exists|i: int|
        0 <= i && i + needle.len() <= hay.len() && #[trigger] hay.subrange(
            i,
            i + needle.len(),
        ) == needle
}

/// Decides whether `needle` occurs in `hay` as a contiguous run.
pub fn str_contains(hay: &str, needle: &str) -> (r: bool)
    ensures
        r == contains_seq(hay@, needle@),
{
    let n = hay.unicode_len();
    let m = needle.unicode_len();
    if m > n {
        return false;
    }
    if m == 0 {
        proof {
            assert(hay@.subrange(0, 0 + needle@.len() as int) =~= needle@);
        }
        return true;
    }
    let last = n - m;
    let mut i: usize = 0;
    while i <= last
        invariant
            n == hay@.len(),
            m == needle@.len(),
            0 < m <= n,
            last == n - m,
            0 <= i <= last + 1,
            forall|k: int|
                0 <= k < i ==> #[trigger] hay@.subrange(k, k + needle@.len())
                    != needle@,
        decreases n - i,
    {
        let mut j: usize = 0;
        let mut matched = true;
        while j < m
            invariant
                n == hay@.len(),
                m == needle@.len(),
                i + m <= n,
                0 <= j <= m,
                matched ==> forall|k: int|
                    0 <= k < j ==> hay@[i + k] == needle@[k],
                !matched ==> hay@.subrange(i as int, i + needle@.len()) != needle@,
            decreases m - j,
        {
            if matched {
                if hay.get_char(i + j) != needle.get_char(j) {
                    proof {
                        assert(hay@.subrange(i as int, i + needle@.len())[j as int]
                            == hay@[i + j]);
                    }
                    matched = false;
                }
            }
            j += 1;
        }
        if matched {
            proof {
                assert(hay@.subrange(i as int, i + needle@.len()) =~= needle@);
            }
            return true;
        }
        i += 1;
    }
    proof {
        assert forall|k: int|
            0 <= k && k + needle@.len() <= hay@.len() implies #[trigger] hay@.subrange(
            k,
            k + needle@.len(),
        ) != needle@ by {
            assert(k < i);
        }
    }
    false
}

/// Strictly sorted in lexicographic order, hence free of duplicates.
pub open spec fn strict_sorted(v: Seq<Seq<char>>) -> bool {
    forall|i: int, j: int|
        0 <= i < j < v.len() ==> lex_lt(#[trigger] v[i], #[trigger] v[j])
}

/// `v` with `x` inserted at its sorted position; `v` unchanged when `x`
/// is already present.
pub open spec fn sorted_insert(v: Seq<Seq<char>>, x: Seq<char>) -> Seq<Seq<char>>
    decreases v.len(),
{
    if v.len() == 0 {
        seq![x]
    } else if x == v[0] {
        v
    } else if lex_lt(x, v[0]) {
        seq![x] + v
    } else {
        seq![v[0]] + sorted_insert(v.drop_first(), x)
    }
}

/// Insertion splits `v` at the first position whose element is not below
/// `x`, or leaves `v` alone when that element is `x` itself.
proof fn lemma_sorted_insert_at(v: Seq<Seq<char>>, x: Seq<char>, i: int)
    requires
        0 <= i <= v.len(),
        forall|j: int| 0 <= j < i ==> lex_lt(#[trigger] v[j], x),
        i < v.len() ==> !lex_lt(v[i], x),
    ensures
        i < v.len() && v[i] == x ==> sorted_insert(v, x) == v,
        !(i < v.len() && v[i] == x) ==> sorted_insert(v, x) == v.take(i) + seq![x]
            + v.skip(i),
    decreases i,
{
    if i == 0 {
        if v.len() == 0 {
            assert(sorted_insert(v, x) =~= v.take(0) + seq![x] + v.skip(0));
        } else if v[0] == x {
        } else {
            lemma_lex_lt_connected(x, v[0]);
            assert(lex_lt(x, v[0]));
            assert(sorted_insert(v, x) =~= v.take(0) + seq![x] + v.skip(0));
        }
    } else {
        assert(lex_lt(v[0], x));
        lemma_lex_lt_irrefl(x);
        assert(x != v[0]);
        if lex_lt(x, v[0]) {
            lemma_lex_lt_trans(x, v[0], x);
            assert(false);
        }
        let w = v.drop_first();
        assert(forall|j: int| 0 <= j < i - 1 ==> lex_lt(#[trigger] w[j], x));
        lemma_sorted_insert_at(w, x, i - 1);
        if i < v.len() && v[i] == x {
            assert(w[i - 1] == x);
            assert(sorted_insert(v, x) =~= seq![v[0]] + w);
            assert(seq![v[0]] + w =~= v);
        } else {
            assert(sorted_insert(w, x) == w.take(i - 1) + seq![x] + w.skip(i - 1));
            assert(sorted_insert(v, x) =~= v.take(i) + seq![x] + v.skip(i)) by {
                assert(sorted_insert(v, x) == seq![v[0]] + (w.take(i - 1) + seq![x]
                    + w.skip(i - 1)));
            }
        }
    }
}

/// What insertion does to the contents and the order: sortedness is kept,
/// the contents grow by exactly `x`, and inserting a present element is a
/// no-op.
pub proof fn lemma_sorted_insert_props(v: Seq<Seq<char>>, x: Seq<char>)
    requires
        strict_sorted(v),
    ensures
        strict_sorted(sorted_insert(v, x)),
        forall|y: Seq<char>|
            sorted_insert(v, x).contains(y) <==> v.contains(y) || y == x,
        v.contains(x) ==> sorted_insert(v, x) == v,
        !v.contains(x) ==> sorted_insert(v, x).len() == v.len() + 1,
    decreases v.len(),
{
    let r = sorted_insert(v, x);
    if v.len() == 0 {
        assert(r =~= seq![x]);
        assert(r.contains(x)) by {
            assert(r[0] == x);
        }
        assert forall|y: Seq<char>| r.contains(y) <==> v.contains(y) || y == x by {
            if r.contains(y) {
                let k = choose|k: int| 0 <= k < r.len() && r[k] == y;
                assert(k == 0);
            }
            if y == x {
                assert(r[0] == y);
            }
        }
    } else if x == v[0] {
        assert(v.contains(x)) by {
            assert(v[0] == x);
        }
        assert forall|y: Seq<char>| v.contains(y) <==> v.contains(y) || y == x by {
            if y == x {
                assert(v[0] == y);
            }
        }
    } else if lex_lt(x, v[0]) {
        assert(r =~= seq![x] + v);
        assert(strict_sorted(r)) by {
            assert forall|i: int, j: int|
                0 <= i < j < r.len() implies lex_lt(#[trigger] r[i], #[trigger] r[j]) by {
                if i == 0 {
                    assert(r[0] == x);
                    assert(r[j] == v[j - 1]);
                    if j > 1 {
                        assert(lex_lt(v[0], v[j - 1]));
                        lemma_lex_lt_trans(x, v[0], v[j - 1]);
                    }
                } else {
                    assert(r[i] == v[i - 1] && r[j] == v[j - 1]);
                }
            }
        }
        assert(!v.contains(x)) by {
            if v.contains(x) {
                let k = choose|k: int| 0 <= k < v.len() && v[k] == x;
                if k == 0 {
                    lemma_lex_lt_irrefl(x);
                } else {
                    assert(lex_lt(v[0], v[k]));
                    lemma_lex_lt_trans(x, v[0], x);
                    lemma_lex_lt_irrefl(x);
                }
            }
        }
        assert forall|y: Seq<char>| r.contains(y) <==> v.contains(y) || y == x by {
            if r.contains(y) {
                let k = choose|k: int| 0 <= k < r.len() && r[k] == y;
                if k == 0 {
                } else {
                    assert(v[k - 1] == y);
                }
            }
            if v.contains(y) {
                let k = choose|k: int| 0 <= k < v.len() && v[k] == y;
                assert(r[k + 1] == y);
            }
            if y == x {
                assert(r[0] == y);
            }
        }
    } else {
        let w = v.drop_first();
        assert(strict_sorted(w)) by {
            assert forall|i: int, j: int|
                0 <= i < j < w.len() implies lex_lt(#[trigger] w[i], #[trigger] w[j]) by {
                assert(w[i] == v[i + 1] && w[j] == v[j + 1]);
            }
        }
        lemma_sorted_insert_props(w, x);
        let rw = sorted_insert(w, x);
        assert(r =~= seq![v[0]] + rw);
        lemma_lex_lt_connected(x, v[0]);
        assert(lex_lt(v[0], x));
        assert(strict_sorted(r)) by {
            assert forall|i: int, j: int|
                0 <= i < j < r.len() implies lex_lt(#[trigger] r[i], #[trigger] r[j]) by {
                if i == 0 {
                    assert(r[j] == rw[j - 1]);
                    assert(rw.contains(rw[j - 1]));
                    if rw[j - 1] == x {
                        assert(lex_lt(v[0], x));
                    } else {
                        assert(w.contains(rw[j - 1]));
                        let k = choose|k: int| 0 <= k < w.len() && w[k] == rw[j - 1];
                        assert(w[k] == v[k + 1]);
                        assert(lex_lt(v[0], v[k + 1]));
                    }
                } else {
                    assert(r[i] == rw[i - 1] && r[j] == rw[j - 1]);
                }
            }
        }
        assert forall|y: Seq<char>| r.contains(y) <==> v.contains(y) || y == x by {
            if r.contains(y) {
                let k = choose|k: int| 0 <= k < r.len() && r[k] == y;
                if k == 0 {
                    assert(v[0] == y);
                } else {
                    assert(rw[k - 1] == y);
                    assert(rw.contains(y));
                    if w.contains(y) {
                        let t = choose|t: int| 0 <= t < w.len() && w[t] == y;
                        assert(v[t + 1] == y);
                    }
                }
            }
            if v.contains(y) {
                let k = choose|k: int| 0 <= k < v.len() && v[k] == y;
                if k == 0 {
                    assert(r[0] == y);
                } else {
                    assert(w[k - 1] == y);
                    assert(w.contains(y));
                    assert(rw.contains(y));
                    let t = choose|t: int| 0 <= t < rw.len() && rw[t] == y;
                    assert(r[t + 1] == y);
                }
            }
            if y == x {
                assert(rw.contains(y));
                let t = choose|t: int| 0 <= t < rw.len() && rw[t] == y;
                assert(r[t + 1] == y);
            }
        }
        if v.contains(x) {
            let k = choose|k: int| 0 <= k < v.len() && v[k] == x;
            if k == 0 {
                lemma_lex_lt_irrefl(x);
            } else {
                assert(w[k - 1] == x);
                assert(w.contains(x));
                assert(r =~= v);
            }
        }
    }
}

/// Records an ending code in the sorted list: inserts it at its position,
/// or leaves the list unchanged when it is already present.
pub fn insert_code(codes: &mut Vec<String>, code: String)
    ensures
        final(codes).deep_view() == sorted_insert(old(codes).deep_view(), code@),
{
    let ghost dv = old(codes).deep_view();
    let n = codes.len();
    let mut i: usize = 0;
    while i < n && str_lt(codes[i].as_str(), code.as_str())
        invariant
            codes == old(codes),
            n == codes.len(),
            dv == codes.deep_view(),
            dv.len() == n,
            forall|j: int| 0 <= j < n ==> dv[j] == codes@[j]@,
            0 <= i <= n,
            forall|j: int| 0 <= j < i ==> lex_lt(#[trigger] dv[j], code@),
        decreases n - i,
    {
        i += 1;
    }
    if i < n && str_eq(codes[i].as_str(), code.as_str()) {
        proof {
            lemma_sorted_insert_at(dv, code@, i as int);
        }
    } else {
        codes.insert(i, code);
        proof {
            lemma_sorted_insert_at(dv, code@, i as int);
            assert(codes.deep_view() =~= dv.take(i as int) + seq![code@] + dv.skip(
                i as int,
            ));
        }
    }
}

/// The characters of `s` with leading and trailing whitespace removed,
/// as `str::trim` computes them.
pub uninterp spec fn trim_of(s: Seq<char>) -> Seq<char>;

/// The lowercase form of `s`, as `str::to_lowercase` computes it.
pub uninterp spec fn lower_of(s: Seq<char>) -> Seq<char>;

/// A player input line after normalization: surrounding whitespace
/// removed, then the rest folded to lowercase.
pub open spec fn normal_of(s: Seq<char>) -> Seq<char> {
    lower_of(trim_of(s))
}

/// Relies on str::trim: returns the input without its leading and trailing
/// whitespace, a function of the characters alone.
#[verifier::external_body]
fn trim_str<'a>(s: &'a str) -> (r: &'a str)
    ensures
        r@ == trim_of(s@),
{
    s.trim()
}

/// Relies on str::to_lowercase: returns the lowercase equivalent of the
/// input, a function of the characters alone.
#[verifier::external_body]
fn lowercase_str(s: &str) -> (r: String)
    ensures
        r@ == lower_of(s@),
{
    s.to_lowercase()
}

/// Normalizes one line of player input: trims surrounding whitespace,
/// then folds the remainder to lowercase.
pub fn normalize_line(s: &str) -> (r: String)
    ensures
        r@ == normal_of(s@),
{
    lowercase_str(trim_str(s))
}

} // verus!
