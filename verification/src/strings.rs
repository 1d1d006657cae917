//! Text utilities: ordering of names, sorting by name, decimal rendering,
//! searching and slicing.
use vstd::prelude::*;

verus! {

/// Strict lexicographic order of character sequences, by code point.
pub open spec fn seq_lt(a: Seq<char>, b: Seq<char>) -> bool
    decreases a.len(),
{
    if a.len() == 0 {
        b.len() > 0
    } else if b.len() == 0 {
        false
    } else if a[0] != b[0] {
        (a[0] as int) < (b[0] as int)
    } else {
        seq_lt(a.drop_first(), b.drop_first())
    }
}

/// The views of a list of strings.
pub open spec fn strs_view(v: Seq<String>) -> Seq<Seq<char>> {
    v.map_values(|s: String| s@)
}

/// A string built from `a` followed by `b`.
pub fn concat(a: &str, b: &str) -> (r: String)
    ensures
        r@ == a@ + b@,
{
    String::from_str(a).concat(b)
}

/// A copy of a string.
pub fn copy_string(s: &String) -> (r: String)
    ensures
        r@ == s@,
{
    String::from_str(s.as_str())
}

/// Whether `a` comes strictly before `b`.
pub fn str_lt(a: &str, b: &str) -> (r: bool)
    ensures
        r == seq_lt(a@, b@),
{
    let n = a.unicode_len();
    let m = b.unicode_len();
    let mut i: usize = 0;
    proof {
        assert(a@.skip(0) =~= a@);
        assert(b@.skip(0) =~= b@);
    }
    while i < n && i < m
        invariant
            n == a@.len(),
            m == b@.len(),
            i <= n,
            i <= m,
            seq_lt(a@, b@) == seq_lt(a@.skip(i as int), b@.skip(i as int)),
        decreases n - i,
    {
        let ca = a.get_char(i);
        let cb = b.get_char(i);
        if ca != cb {
            return (ca as u32) < (cb as u32);
        }
        proof {
            assert(a@.skip(i as int).drop_first() =~= a@.skip(i + 1));
            assert(b@.skip(i as int).drop_first() =~= b@.skip(i + 1));
        }
        i = i + 1;
    }
    i == n && i < m
}

/// `seq_lt` is irreflexive.
pub proof fn lemma_lt_irreflexive(a: Seq<char>)
    ensures
        !seq_lt(a, a),
    decreases a.len(),
{
    if a.len() > 0 {
        lemma_lt_irreflexive(a.drop_first());
    }
}

/// `seq_lt` is transitive.
pub proof fn lemma_lt_transitive(a: Seq<char>, b: Seq<char>, c: Seq<char>)
    requires
        seq_lt(a, b),
        seq_lt(b, c),
    ensures
        seq_lt(a, c),
    decreases a.len(),
{
    if a.len() > 0 && b.len() > 0 && c.len() > 0 && a[0] == b[0] && b[0] == c[0] {
        lemma_lt_transitive(a.drop_first(), b.drop_first(), c.drop_first());
    }
}

/// Two sequences that neither precedes are equal.
pub proof fn lemma_lt_total(a: Seq<char>, b: Seq<char>)
    ensures
        seq_lt(a, b) || seq_lt(b, a) || a == b,
    decreases a.len(),
{
    if a.len() > 0 && b.len() > 0 {
        if a[0] == b[0] {
            lemma_lt_total(a.drop_first(), b.drop_first());
            if a.drop_first() == b.drop_first() {
                assert(a =~= seq![a[0]] + a.drop_first());
                assert(b =~= seq![b[0]] + b.drop_first());
            }
        } else {
            assert((a[0] as int) != (b[0] as int));
        }
    } else if a.len() == 0 && b.len() == 0 {
        assert(a =~= b);
    }
}

// ---------------------------------------------------------------------------
// Sorting positions by their names.
/// Inserts position `x` into `s` after every position whose name is not greater.
pub open spec fn insert_by_name(s: Seq<usize>, x: usize, names: Seq<Seq<char>>) -> Seq<usize>
    decreases s.len(),
{
    if s.len() == 0 {
        seq![x]
    } else if seq_lt(names[x as int], names[s[0] as int]) {
        seq![x] + s
    } else {
        seq![s[0]] + insert_by_name(s.drop_first(), x, names)
    }
}

/// The positions `0..n` ordered by `names`, equal names keeping their order.
pub open spec fn sort_by_name(names: Seq<Seq<char>>, n: nat) -> Seq<usize>
    decreases n,
{
    if n == 0 {
        Seq::empty()
    } else {
        insert_by_name(sort_by_name(names, (n - 1) as nat), (n - 1) as usize, names)
    }
}

/// The positions of `names` in ascending order of name.
pub open spec fn name_order(names: Seq<Seq<char>>) -> Seq<usize> {
    sort_by_name(names, names.len())
}

pub proof fn lemma_insert_at(s: Seq<usize>, x: usize, names: Seq<Seq<char>>, p: int)
    requires
        0 <= p <= s.len(),
        forall|j: int| 0 <= j < p ==> !seq_lt(names[x as int], #[trigger] names[s[j] as int]),
        p < s.len() ==> seq_lt(names[x as int], names[s[p] as int]),
    ensures
        insert_by_name(s, x, names) == s.insert(p, x),
    decreases s.len(),
{
    if s.len() == 0 {
        assert(s.insert(p, x) =~= seq![x]);
    } else if p == 0 {
        assert(s.insert(p, x) =~= seq![x] + s);
    } else {
        assert(!seq_lt(names[x as int], names[s[0] as int]));
        let t = s.drop_first();
        assert forall|j: int| 0 <= j < p - 1 implies !seq_lt(
            names[x as int],
            #[trigger] names[t[j] as int],
        ) by {
            assert(t[j] == s[j + 1]);
        }
        lemma_insert_at(t, x, names, p - 1);
        assert(s.insert(p, x) =~= seq![s[0]] + t.insert(p - 1, x));
    }
}

/// The positions of `names` in ascending order of name (equal names keep their order).
pub fn name_order_of(names: &Vec<String>) -> (r: Vec<usize>)
    ensures
        r@ == name_order(strs_view(names@)),
{
    let ghost nv = strs_view(names@);
    let n = names.len();
    let mut r: Vec<usize> = Vec::new();
    let mut i: usize = 0;
    while i < n
        invariant
            n == names@.len(),
            nv == strs_view(names@),
            i <= n,
            r@ == sort_by_name(nv, i as nat),
            forall|j: int| 0 <= j < r@.len() ==> #[trigger] r@[j] < i,
        decreases n - i,
    {
        proof {
            lemma_sort_by_name_len(nv, i as nat);
        }
        let mut p: usize = 0;
        while p < r.len() && !str_lt(names[i].as_str(), names[r[p]].as_str())
            invariant
                n == names@.len(),
                nv == strs_view(names@),
                i < n,
                p <= r@.len(),
                forall|j: int| 0 <= j < r@.len() ==> #[trigger] r@[j] < i,
                forall|j: int| 0 <= j < p ==> !seq_lt(nv[i as int], #[trigger] nv[r@[j] as int]),
            decreases r@.len() - p,
        {
            p = p + 1;
        }
        let ghost before = r@;
        proof {
            lemma_insert_at(r@, i, nv, p as int);
        }
        r.insert(p, i);
        i = i + 1;
        proof {
            assert forall|j: int| 0 <= j < r@.len() implies #[trigger] r@[j] < i by {
                if j < p {
                    assert(r@[j] == before[j]);
                } else if j > p {
                    assert(r@[j] == before[j - 1]);
                }
            }
        }
    }
    r
}

/// The positions are in ascending order of name.
pub open spec fn sorted_by(order: Seq<usize>, names: Seq<Seq<char>>) -> bool {
    forall|i: int, j: int|
        0 <= i < j < order.len() ==> !seq_lt(#[trigger] names[order[j] as int], #[trigger] names[order[i] as int])
}

/// Positions with equal names are in ascending order of position.
pub open spec fn stable_by(order: Seq<usize>, names: Seq<Seq<char>>) -> bool {
    forall|i: int, j: int|
        0 <= i < j < order.len() && #[trigger] names[order[i] as int] == #[trigger] names[order[j] as int]
            ==> order[i] < order[j]
}

/// No position occurs twice.
pub open spec fn distinct_positions(order: Seq<usize>) -> bool {
    forall|i: int, j: int| 0 <= i < j < order.len() ==> #[trigger] order[i] != #[trigger] order[j]
}

proof fn lemma_insert_sorted(s: Seq<usize>, x: usize, names: Seq<Seq<char>>)
    requires
        x < names.len(),
        sorted_by(s, names),
        stable_by(s, names),
        distinct_positions(s),
        forall|j: int| 0 <= j < s.len() ==> #[trigger] s[j] < x,
    ensures
        ({
            let r = insert_by_name(s, x, names);
            &&& r.len() == s.len() + 1
            &&& sorted_by(r, names)
            &&& stable_by(r, names)
            &&& distinct_positions(r)
            &&& forall|i: int|
                0 <= i < r.len() ==> #[trigger] r[i] == x || exists|j: int| 0 <= j < s.len() && s[j] == r[i]
        }),
    decreases s.len(),
{
    let r = insert_by_name(s, x, names);
    if s.len() == 0 {
        assert(r =~= seq![x]);
    } else if seq_lt(names[x as int], names[s[0] as int]) {
        assert(r =~= seq![x] + s);
        assert forall|i: int, j: int| 0 <= i < j < r.len() implies !seq_lt(
            #[trigger] names[r[j] as int],
            #[trigger] names[r[i] as int],
        ) && (names[r[i] as int] == names[r[j] as int] ==> r[i] < r[j]) && r[i] != r[j] by {
            if i == 0 {
                let sj = s[j - 1];
                assert(r[j] == sj);
                if j - 1 == 0 {
                    lemma_lt_irreflexive(names[s[0] as int]);
                    if seq_lt(names[sj as int], names[x as int]) {
                        lemma_lt_transitive(names[sj as int], names[x as int], names[s[0] as int]);
                    }
                } else {
                    assert(!seq_lt(names[s[j - 1] as int], names[s[0] as int]));
                    if seq_lt(names[sj as int], names[x as int]) {
                        lemma_lt_transitive(names[sj as int], names[x as int], names[s[0] as int]);
                    }
                    if names[x as int] == names[sj as int] {
                        assert(seq_lt(names[sj as int], names[s[0] as int]));
                    }
                }
                if names[x as int] == names[sj as int] && j - 1 == 0 {
                    lemma_lt_irreflexive(names[s[0] as int]);
                }
            } else {
                assert(r[i] == s[i - 1]);
                assert(r[j] == s[j - 1]);
            }
        }
    } else {
        let t = s.drop_first();
        assert forall|i: int, j: int| 0 <= i < j < t.len() implies !seq_lt(
            #[trigger] names[t[j] as int],
            #[trigger] names[t[i] as int],
        ) by {
            assert(t[i] == s[i + 1] && t[j] == s[j + 1]);
        }
        assert forall|i: int, j: int|
            0 <= i < j < t.len() && #[trigger] names[t[i] as int] == #[trigger] names[t[j] as int] implies t[i]
            < t[j] by {
            assert(t[i] == s[i + 1] && t[j] == s[j + 1]);
        }
        assert forall|i: int, j: int| 0 <= i < j < t.len() implies #[trigger] t[i] != #[trigger] t[j] by {
            assert(t[i] == s[i + 1] && t[j] == s[j + 1]);
        }
        assert forall|j: int| 0 <= j < t.len() implies #[trigger] t[j] < x by {
            assert(t[j] == s[j + 1]);
        }
        lemma_insert_sorted(t, x, names);
        let rt = insert_by_name(t, x, names);
        assert(r =~= seq![s[0]] + rt);
        assert forall|i: int| 0 <= i < r.len() implies #[trigger] r[i] == x || exists|j: int|
            0 <= j < s.len() && s[j] == r[i] by {
            if i > 0 {
                assert(r[i] == rt[i - 1]);
                if rt[i - 1] != x {
                    let j = choose|j: int| 0 <= j < t.len() && t[j] == rt[i - 1];
                    assert(s[j + 1] == r[i]);
                }
            } else {
                assert(s[0] == r[0]);
            }
        }
        assert forall|i: int, j: int| 0 <= i < j < r.len() implies !seq_lt(
            #[trigger] names[r[j] as int],
            #[trigger] names[r[i] as int],
        ) && (names[r[i] as int] == names[r[j] as int] ==> r[i] < r[j]) && r[i] != r[j] by {
            assert(r[j] == rt[j - 1]);
            if i == 0 {
                assert(r[0] == s[0]);
                if rt[j - 1] != x {
                    let k = choose|k: int| 0 <= k < t.len() && t[k] == rt[j - 1];
                    assert(t[k] == s[k + 1]);
                    assert(!seq_lt(names[s[k + 1] as int], names[s[0] as int]));
                }
            } else {
                assert(r[i] == rt[i - 1]);
            }
        }
    }
}

/// `sort_by_name(names, n)` lists each of the positions `0..n` once, in
/// ascending order of name, equal names in ascending order of position.
pub proof fn lemma_sort_by_name_sorted(names: Seq<Seq<char>>, n: nat)
    requires
        n <= names.len(),
        n <= usize::MAX,
    ensures
        sort_by_name(names, n).len() == n,
        forall|i: int| 0 <= i < n ==> #[trigger] sort_by_name(names, n)[i] < n,
        distinct_positions(sort_by_name(names, n)),
        sorted_by(sort_by_name(names, n), names),
        stable_by(sort_by_name(names, n), names),
    decreases n,
{
    lemma_name_order_bounds(names, n);
    if n > 0 {
        let m = (n - 1) as nat;
        lemma_sort_by_name_sorted(names, m);
        let s = sort_by_name(names, m);
        assert forall|j: int| 0 <= j < s.len() implies #[trigger] s[j] < (n - 1) as usize by {
        }
        lemma_insert_sorted(s, (n - 1) as usize, names);
    }
}

proof fn lemma_insert_len(s: Seq<usize>, x: usize, names: Seq<Seq<char>>)
    ensures
        insert_by_name(s, x, names).len() == s.len() + 1,
    decreases s.len(),
{
    if s.len() > 0 {
        lemma_insert_len(s.drop_first(), x, names);
    }
}

proof fn lemma_insert_bounds(s: Seq<usize>, x: usize, names: Seq<Seq<char>>, n: nat)
    requires
        x < n,
        forall|j: int| 0 <= j < s.len() ==> #[trigger] s[j] < n,
    ensures
        forall|j: int|
            0 <= j < insert_by_name(s, x, names).len() ==> #[trigger] insert_by_name(s, x, names)[j]
                < n,
    decreases s.len(),
{
    if s.len() > 0 {
        lemma_insert_bounds(s.drop_first(), x, names, n);
        let r = insert_by_name(s, x, names);
        if !seq_lt(names[x as int], names[s[0] as int]) {
            let t = insert_by_name(s.drop_first(), x, names);
            assert forall|j: int| 0 <= j < r.len() implies #[trigger] r[j] < n by {
                if j > 0 {
                    assert(r[j] == t[j - 1]);
                }
            }
        }
    }
}

/// Every position in the order is below its length.
pub proof fn lemma_name_order_bounds(names: Seq<Seq<char>>, n: nat)
    ensures
        sort_by_name(names, n).len() == n,
        forall|j: int| 0 <= j < n ==> #[trigger] sort_by_name(names, n)[j] < n,
    decreases n,
{
    lemma_sort_by_name_len(names, n);
    if n > 0 {
        lemma_name_order_bounds(names, (n - 1) as nat);
        let s = sort_by_name(names, (n - 1) as nat);
        assert forall|j: int| 0 <= j < s.len() implies #[trigger] s[j] < n by {
        }
        lemma_insert_bounds(s, (n - 1) as usize, names, n);
    }
}

pub proof fn lemma_sort_by_name_len(names: Seq<Seq<char>>, n: nat)
    ensures
        sort_by_name(names, n).len() == n,
    decreases n,
{
    if n > 0 {
        lemma_sort_by_name_len(names, (n - 1) as nat);
        lemma_insert_len(sort_by_name(names, (n - 1) as nat), (n - 1) as usize, names);
    }
}

// ---------------------------------------------------------------------------
// Decimal rendering.
pub open spec fn digit_char(d: nat) -> char {
    if d == 0 {
        '0'
    } else if d == 1 {
        '1'
    } else if d == 2 {
        '2'
    } else if d == 3 {
        '3'
    } else if d == 4 {
        '4'
    } else if d == 5 {
        '5'
    } else if d == 6 {
        '6'
    } else if d == 7 {
        '7'
    } else if d == 8 {
        '8'
    } else {
        '9'
    }
}

/// The decimal digits of `n`, without leading zeros.
pub open spec fn decimal(n: nat) -> Seq<char>
    decreases n,
{
    if n < 10 {
        seq![digit_char(n)]
    } else {
        decimal(n / 10).push(digit_char(n % 10))
    }
}

fn digit_str(d: usize) -> (r: &'static str)
    requires
        d < 10,
    ensures
        r@ == seq![digit_char(d as nat)],
{
    if d == 0 {
        proof {
            reveal_strlit("0");
        }
        "0"
    } else if d == 1 {
        proof {
            reveal_strlit("1");
        }
        "1"
    } else if d == 2 {
        proof {
            reveal_strlit("2");
        }
        "2"
    } else if d == 3 {
        proof {
            reveal_strlit("3");
        }
        "3"
    } else if d == 4 {
        proof {
            reveal_strlit("4");
        }
        "4"
    } else if d == 5 {
        proof {
            reveal_strlit("5");
        }
        "5"
    } else if d == 6 {
        proof {
            reveal_strlit("6");
        }
        "6"
    } else if d == 7 {
        proof {
            reveal_strlit("7");
        }
        "7"
    } else if d == 8 {
        proof {
            reveal_strlit("8");
        }
        "8"
    } else {
        proof {
            reveal_strlit("9");
        }
        "9"
    }
}

/// The decimal rendering of `n`.
pub fn usize_to_string(n: usize) -> (r: String)
    ensures
        r@ == decimal(n as nat),
    decreases n,
{
    if n < 10 {
        String::from_str(digit_str(n))
    } else {
        let head = usize_to_string(n / 10);
        head.concat(digit_str(n % 10))
    }
}

// ---------------------------------------------------------------------------
// Searching and slicing.
/// The first position of `c` in `s`, if any.
pub open spec fn first_index_of(s: Seq<char>, c: char) -> Option<int> {
    if exists|i: int| 0 <= i < s.len() && s[i] == c {
        Some(choose|i: int| 0 <= i < s.len() && s[i] == c && forall|j: int| 0 <= j < i ==> s[j] != c)
    } else {
        None
    }
}

/// The first position of `c` in `s`, if any.
pub fn find_char(s: &str, c: char) -> (r: Option<usize>)
    ensures
        r is Some <==> first_index_of(s@, c) is Some,
        r matches Some(i) ==> first_index_of(s@, c) == Some(i as int) && i < s@.len() && s@[i as int]
            == c && forall|j: int| 0 <= j < i ==> s@[j] != c,
{
    let n = s.unicode_len();
    let mut i: usize = 0;
    while i < n
        invariant
            n == s@.len(),
            i <= n,
            forall|j: int| 0 <= j < i ==> s@[j] != c,
        decreases n - i,
    {
        if s.get_char(i) == c {
            proof {
                let w = choose|k: int|
                    0 <= k < s@.len() && s@[k] == c && forall|j: int| 0 <= j < k ==> s@[j] != c;
                assert(0 <= i < s@.len() && s@[i as int] == c && forall|j: int|
                    0 <= j < i ==> s@[j] != c);
                if w < i {
                } else if w > i {
                }
            }
            return Some(i);
        }
        i = i + 1;
    }
    None
}

/// The characters of `s` from `a` up to `b`.
pub fn substring(s: &str, a: usize, b: usize) -> (r: String)
    requires
        a <= b <= s@.len(),
    ensures
        r@ == s@.subrange(a as int, b as int),
{
    String::from_str(s.substring_char(a, b))
}

/// Whether `s` ends with `p`.
pub open spec fn has_suffix(s: Seq<char>, p: Seq<char>) -> bool {
    p.len() <= s.len() && s.subrange(s.len() - p.len(), s.len() as int) == p
}

/// `s` with every trailing repetition of `p` removed.
pub open spec fn trim_suffixes(s: Seq<char>, p: Seq<char>) -> Seq<char>
    decreases s.len(),
{
    if p.len() > 0 && has_suffix(s, p) {
        trim_suffixes(s.subrange(0, s.len() - p.len()), p)
    } else {
        s
    }
}

/// Whether `s` ends with `p`.
pub fn ends_with(s: &str, p: &str) -> (r: bool)
    ensures
        r == has_suffix(s@, p@),
{
    let n = s.unicode_len();
    let m = p.unicode_len();
    if m > n {
        return false;
    }
    let mut i: usize = 0;
    while i < m
        invariant
            n == s@.len(),
            m == p@.len(),
            m <= n,
            i <= m,
            forall|j: int| 0 <= j < i ==> s@[n - m + j] == p@[j],
        decreases m - i,
    {
        if s.get_char(n - m + i) != p.get_char(i) {
            assert(s@.subrange(n - m, n as int)[i as int] != p@[i as int]);
            return false;
        }
        i = i + 1;
    }
    assert(s@.subrange(n - m, n as int) =~= p@);
    true
}

/// `s` with every trailing repetition of `p` removed.
pub fn trim_end_matches(s: &str, p: &str) -> (r: String)
    ensures
        r@ == trim_suffixes(s@, p@),
{
    let m = p.unicode_len();
    let mut cur = String::from_str(s);
    if m == 0 {
        return cur;
    }
    while ends_with(cur.as_str(), p)
        invariant
            m == p@.len(),
            m > 0,
            trim_suffixes(cur@, p@) == trim_suffixes(s@, p@),
        decreases cur@.len(),
    {
        let n = cur.as_str().unicode_len();
        cur = substring(cur.as_str(), 0, n - m);
    }
    cur
}

/// The last position of `c` in `s`, if any.
pub fn rfind_char(s: &str, c: char) -> (r: Option<usize>)
    ensures
        r matches Some(i) ==> i < s@.len() && s@[i as int] == c && forall|j: int|
            i < j < s@.len() ==> s@[j] != c,
        r is None ==> forall|j: int| 0 <= j < s@.len() ==> s@[j] != c,
{
    let n = s.unicode_len();
    let mut i: usize = n;
    while i > 0
        invariant
            n == s@.len(),
            i <= n,
            forall|j: int| i <= j < n ==> s@[j] != c,
        decreases i,
    {
        if s.get_char(i - 1) == c {
            return Some(i - 1);
        }
        i = i - 1;
    }
    None
}

} // verus!
