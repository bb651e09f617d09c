use vstd::prelude::*;
use vstd::string::*;
use crate::assoc::str_eq;
use crate::strategy_errors::columns_view;
use crate::strategy_structs::SimpleColumn;

verus! {

/// Lexicographic order of strings by code point, the order of `String`'s `Ord`.
pub open spec fn str_lt(a: Seq<char>, b: Seq<char>) -> bool
    decreases a.len(),
{
    if a.len() == 0 {
        b.len() > 0
    } else if b.len() == 0 {
        false
    } else if a[0] != b[0] {
        (a[0] as u32) < (b[0] as u32)
    } else {
        str_lt(a.drop_first(), b.drop_first())
    }
}

/// Order of qualified columns: by table name, then by column name.
pub open spec fn column_lt(a: (Seq<char>, Seq<char>), b: (Seq<char>, Seq<char>)) -> bool {
    str_lt(a.0, b.0) || (a.0 == b.0 && str_lt(a.1, b.1))
}

/// Strictly increasing: sorted with no repeats.
pub open spec fn strictly_sorted(s: Seq<(Seq<char>, Seq<char>)>) -> bool {
    forall|i: int, j: int| 0 <= i < j < s.len() ==> column_lt(#[trigger] s[i], #[trigger] s[j])
}

proof fn lemma_char_code(x: char, y: char)
    ensures
        (x as u32) == (y as u32) ==> x == y,
{
}

pub proof fn lemma_str_lt_irreflexive(a: Seq<char>)
    ensures
        !str_lt(a, a),
    decreases a.len(),
{
    if a.len() > 0 {
        lemma_str_lt_irreflexive(a.drop_first());
    }
}

pub proof fn lemma_str_lt_total(a: Seq<char>, b: Seq<char>)
    ensures
        a == b || str_lt(a, b) || str_lt(b, a),
    decreases a.len(),
{
    if a.len() > 0 && b.len() > 0 && a[0] == b[0] {
        lemma_str_lt_total(a.drop_first(), b.drop_first());
        if a.drop_first() == b.drop_first() {
            assert(a =~= seq![a[0]] + a.drop_first());
            assert(b =~= seq![b[0]] + b.drop_first());
        }
    } else if a.len() == 0 && b.len() == 0 {
        assert(a =~= b);
    } else if a.len() > 0 && b.len() > 0 {
        lemma_char_code(a[0], b[0]);
    }
}

pub proof fn lemma_str_lt_asymmetric(a: Seq<char>, b: Seq<char>)
    ensures
        !(str_lt(a, b) && str_lt(b, a)),
    decreases a.len(),
{
    if a.len() > 0 && b.len() > 0 && a[0] == b[0] {
        lemma_str_lt_asymmetric(a.drop_first(), b.drop_first());
    }
}

pub proof fn lemma_str_lt_transitive(a: Seq<char>, b: Seq<char>, c: Seq<char>)
    requires
        str_lt(a, b),
        str_lt(b, c),
    ensures
        str_lt(a, c),
    decreases a.len(),
{
    if a.len() > 0 && a[0] == b[0] && b[0] == c[0] {
        lemma_str_lt_transitive(a.drop_first(), b.drop_first(), c.drop_first());
    }
}

pub proof fn lemma_column_lt_facts(
    a: (Seq<char>, Seq<char>),
    b: (Seq<char>, Seq<char>),
    c: (Seq<char>, Seq<char>),
)
    ensures
        !column_lt(a, a),
        a == b || column_lt(a, b) || column_lt(b, a),
        column_lt(a, b) && column_lt(b, c) ==> column_lt(a, c),
        !(column_lt(a, b) && column_lt(b, a)),
{
    lemma_str_lt_irreflexive(a.0);
    lemma_str_lt_irreflexive(a.1);
    lemma_str_lt_total(a.0, b.0);
    lemma_str_lt_total(a.1, b.1);
    lemma_str_lt_asymmetric(a.0, b.0);
    lemma_str_lt_asymmetric(a.1, b.1);
    if str_lt(a.0, b.0) && str_lt(b.0, c.0) {
        lemma_str_lt_transitive(a.0, b.0, c.0);
    }
    if str_lt(a.1, b.1) && str_lt(b.1, c.1) {
        lemma_str_lt_transitive(a.1, b.1, c.1);
    }
}

/// Whether `a` comes before `b` in code-point order.
pub fn str_less(a: &str, b: &str) -> (r: bool)
    ensures
        r == str_lt(a@, b@),
{
    let n = a.unicode_len();
    let m = b.unicode_len();
    let mut i: usize = 0;
    assert(a@.skip(0) =~= a@);
    assert(b@.skip(0) =~= b@);
    while i < n && i < m
        invariant
            n == a@.len(),
            m == b@.len(),
            i <= n,
            i <= m,
            str_lt(a@, b@) == str_lt(a@.skip(i as int), b@.skip(i as int)),
        decreases n - i,
    {
        let x = a.get_char(i);
        let y = b.get_char(i);
        assert(a@.skip(i as int)[0] == x);
        assert(b@.skip(i as int)[0] == y);
        if x != y {
            return (x as u32) < (y as u32);
        }
        assert(a@.skip(i as int).drop_first() =~= a@.skip(i + 1));
        assert(b@.skip(i as int).drop_first() =~= b@.skip(i + 1));
        i = i + 1;
    }
    i == n && i < m
}

/// Whether column `a` comes before column `b`.
pub fn column_less(a: &SimpleColumn, b: &SimpleColumn) -> (r: bool)
    ensures
        r == column_lt(a@, b@),
{
    str_less(a.table_name.as_str(), b.table_name.as_str()) || (str_eq(
        a.table_name.as_str(),
        b.table_name.as_str(),
    ) && str_less(a.column_name.as_str(), b.column_name.as_str()))
}

/// Whether two qualified columns are the same.
pub fn column_eq(a: &SimpleColumn, b: &SimpleColumn) -> (r: bool)
    ensures
        r == (a@ == b@),
{
    str_eq(a.table_name.as_str(), b.table_name.as_str()) && str_eq(
        a.column_name.as_str(),
        b.column_name.as_str(),
    )
}

/// Whether `v` holds the column `c`.
pub fn holds_column(v: &Vec<SimpleColumn>, c: &SimpleColumn) -> (r: bool)
    ensures
        r == columns_view(v@).contains(c@),
{
    let mut i: usize = 0;
    while i < v.len()
        invariant
            i <= v@.len(),
            forall|k: int| 0 <= k < i ==> (#[trigger] v@[k])@ != c@,
        decreases v@.len() - i,
    {
        if column_eq(&v[i], c) {
            assert(columns_view(v@)[i as int] == c@);
            return true;
        }
        i = i + 1;
    }
    proof {
        if columns_view(v@).contains(c@) {
            let k = choose|k: int| 0 <= k < columns_view(v@).len() && columns_view(v@)[k] == c@;
            assert(v@[k]@ == c@);
        }
    }
    false
}

/// Adds `c` to a strictly sorted list, in its place, unless it is there already.
pub fn insert_sorted(v: &mut Vec<SimpleColumn>, c: SimpleColumn)
    requires
        strictly_sorted(columns_view(old(v)@)),
    ensures
        strictly_sorted(columns_view(final(v)@)),
        columns_view(final(v)@).to_set() == columns_view(old(v)@).to_set().insert(c@),
{
    let ghost s = columns_view(v@);
    let mut i: usize = 0;
    while i < v.len() && column_less(&v[i], &c)
        invariant
            i <= v@.len(),
            s == columns_view(v@),
            forall|k: int| 0 <= k < i ==> column_lt(#[trigger] s[k], c@),
        decreases v@.len() - i,
    {
        i = i + 1;
    }
    if i < v.len() && column_eq(&v[i], &c) {
        assert(s.to_set() =~= s.to_set().insert(c@)) by {
            assert(s[i as int] == c@);
        }
        return;
    }
    let ghost cv = c@;
    v.insert(i, c);
    proof {
        let t = columns_view(v@);
        assert(t =~= s.insert(i as int, cv));
        if i < s.len() {
            lemma_column_lt_facts(s[i as int], cv, cv);
        }
        assert forall|a: int, b: int| 0 <= a < b < t.len() implies column_lt(#[trigger] t[a], #[trigger] t[b]) by {
            if b < i {
            } else if b == i {
            } else if a < i {
                lemma_column_lt_facts(t[a], cv, t[b]);
                if b > i + 1 {
                    lemma_column_lt_facts(cv, s[i as int], t[b]);
                }
            } else if a == i {
                if b > i + 1 {
                    lemma_column_lt_facts(cv, s[i as int], t[b]);
                }
            } else {
                assert(t[a] == s[a - 1] && t[b] == s[b - 1]);
            }
        }
        assert(t.to_set() =~= s.to_set().insert(cv)) by {
            assert forall|q| t.to_set().contains(q) <==> s.to_set().insert(cv).contains(q) by {
                if t.contains(q) {
                    let k = choose|k: int| 0 <= k < t.len() && t[k] == q;
                    if k < i {
                        assert(s[k] == q);
                    } else if k > i {
                        assert(s[k - 1] == q);
                    }
                }
                if s.contains(q) {
                    let k = choose|k: int| 0 <= k < s.len() && s[k] == q;
                    if k < i {
                        assert(t[k] == q);
                    } else {
                        assert(t[k + 1] == q);
                    }
                }
                if q == cv {
                    assert(t[i as int] == q);
                }
            }
        }
    }
}

} // verus!
