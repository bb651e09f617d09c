use vstd::prelude::*;
use crate::assoc::{assoc, find_last, has_key, keys_unique, lemma_assoc_dom, lemma_assoc_last, lemma_assoc_update};
use crate::order::{holds_column, insert_sorted, strictly_sorted};
use crate::strategy_errors::{columns_view, names_view, DbErrors, ValidationErrors};
use crate::strategy_structs::{
    apply_transformer_overrides, resolved, ColumnInFile, ColumnInfo, DataCategory,
    SimpleColumn, StrategyInFile, Transformer, TransformerOverrides, TransformerType,
};

verus! {

/// A Pii or PotentialPii column that still passes its value through unchanged,
/// unless the override for potential PII demoted it on purpose.
pub open spec fn unmasked_pii(o: TransformerOverrides) -> spec_fn(ColumnInFile) -> bool {
    |c: ColumnInFile|
        (c.data_category == DataCategory::Pii || c.data_category == DataCategory::PotentialPii)
            && resolved(c.data_category, o, c.transformer).name == TransformerType::Identity
            && !(c.data_category == DataCategory::PotentialPii && o.allow_potential_pii)
}

pub open spec fn unknown_category() -> spec_fn(ColumnInFile) -> bool {
    |c: ColumnInFile| c.data_category == DataCategory::Unknown
}

pub open spec fn error_transformer() -> spec_fn(ColumnInFile) -> bool {
    |c: ColumnInFile| c.transformer.name == TransformerType::Error
}

/// The qualified columns of one table entry that meet `p`, in order.
pub open spec fn hits(
    t: Seq<char>,
    cols: Seq<ColumnInFile>,
    p: spec_fn(ColumnInFile) -> bool,
) -> Seq<(Seq<char>, Seq<char>)>
    decreases cols.len(),
{
    if cols.len() == 0 {
        seq![]
    } else {
        hits(t, cols.drop_last(), p) + if p(cols.last()) {
            seq![(t, cols.last().name@)]
        } else {
            seq![]
        }
    }
}

/// The qualified columns of a whole document that meet `p`, in order.
pub open spec fn doc_hits(
    doc: Seq<StrategyInFile>,
    p: spec_fn(ColumnInFile) -> bool,
) -> Seq<(Seq<char>, Seq<char>)>
    decreases doc.len(),
{
    if doc.len() == 0 {
        seq![]
    } else {
        doc_hits(doc.drop_last(), p) + hits(doc.last().table_name@, doc.last().columns@, p)
    }
}

/// Whether an earlier column of `cols` has the name of the last one.
pub open spec fn last_column_repeats(cols: Seq<ColumnInFile>) -> bool {
    exists|k: int| 0 <= k < cols.len() - 1 && (#[trigger] cols[k]).name@ == cols.last().name@
}

/// Each column of one table entry whose name an earlier column of it already had.
pub open spec fn dup_hits(t: Seq<char>, cols: Seq<ColumnInFile>) -> Seq<(Seq<char>, Seq<char>)>
    decreases cols.len(),
{
    if cols.len() == 0 {
        seq![]
    } else {
        dup_hits(t, cols.drop_last()) + if last_column_repeats(cols) {
            seq![(t, cols.last().name@)]
        } else {
            seq![]
        }
    }
}

pub open spec fn doc_dup_hits(doc: Seq<StrategyInFile>) -> Seq<(Seq<char>, Seq<char>)>
    decreases doc.len(),
{
    if doc.len() == 0 {
        seq![]
    } else {
        doc_dup_hits(doc.drop_last()) + dup_hits(doc.last().table_name@, doc.last().columns@)
    }
}

/// Whether an earlier table entry of `doc` has the name of the last one.
pub open spec fn last_table_repeats(doc: Seq<StrategyInFile>) -> bool {
    exists|k: int|
        0 <= k < doc.len() - 1 && (#[trigger] doc[k]).table_name@ == doc.last().table_name@
}

/// Each table entry's name that an earlier entry already had.
pub open spec fn dup_tables(doc: Seq<StrategyInFile>) -> Seq<Seq<char>>
    decreases doc.len(),
{
    if doc.len() == 0 {
        seq![]
    } else {
        dup_tables(doc.drop_last()) + if last_table_repeats(doc) {
            seq![doc.last().table_name@]
        } else {
            seq![]
        }
    }
}

/// The compiled entry of one column.
pub open spec fn compiled_column(o: TransformerOverrides) -> spec_fn(ColumnInFile) -> (String, ColumnInfo) {
    |c: ColumnInFile|
        (
            c.name,
            ColumnInfo {
                data_category: c.data_category,
                name: c.name,
                transformer: resolved(c.data_category, o, c.transformer),
            },
        )
}

/// Whether `ts` is the compiled policy of table entry `t`.
pub open spec fn compiled_table(ts: TableStrategy, t: StrategyInFile, o: TransformerOverrides) -> bool {
    if t.truncate {
        ts is Truncate
    } else {
        ts matches TableStrategy::Columns(v) && v@ == t.columns@.map_values(compiled_column(o))
    }
}

/// Whether a strategy document compiles without any problem.
pub open spec fn document_valid(doc: Seq<StrategyInFile>, o: TransformerOverrides) -> bool {
    &&& doc_hits(doc, unmasked_pii(o)).len() == 0
    &&& doc_hits(doc, unknown_category()).len() == 0
    &&& doc_hits(doc, error_transformer()).len() == 0
    &&& doc_dup_hits(doc).len() == 0
    &&& dup_tables(doc).len() == 0
}

/// The policy of one table: per-column policies, or all its rows dropped.
#[derive(Debug, Clone, PartialEq, Eq)]
pub enum TableStrategy {
    Columns(Vec<(String, ColumnInfo)>),
    Truncate,
}

/// The compiled policy set: table name to table policy, each name once.
#[derive(Debug, PartialEq, Eq)]
pub struct Strategies {
    tables: Vec<(String, TableStrategy)>,
}

impl View for Strategies {
    type V = Map<Seq<char>, TableStrategy>;

    closed spec fn view(&self) -> Map<Seq<char>, TableStrategy> {
        assoc(self.tables@)
    }
}

impl Strategies {
    /// The table entries in order.
    pub closed spec fn entries(&self) -> Seq<(String, TableStrategy)> {
        self.tables@
    }

    pub open spec fn wf(&self) -> bool {
        keys_unique(self.entries())
    }

    pub fn new() -> (r: Strategies)
        ensures
            r.wf(),
            r@ == Map::<Seq<char>, TableStrategy>::empty(),
            r.entries().len() == 0,
    {
        Strategies { tables: Vec::new() }
    }

    /// Compiles a strategy document under the given overrides. Every problem is
    /// collected, in document order, before the document is refused: PII left
    /// unmasked, unknown categories, the Error kind, and repeated columns or
    /// tables (the first of each name is kept).
    pub fn from_strategies_in_file(
        strategies_in_file: Vec<StrategyInFile>,
        transformer_overrides: &TransformerOverrides,
    ) -> (r: Result<Strategies, ValidationErrors>)
        ensures
            r is Ok <==> document_valid(strategies_in_file@, *transformer_overrides),
            r matches Ok(s) ==> {
                &&& s.wf()
                &&& s.entries().len() == strategies_in_file@.len()
                &&& forall|i: int|
                    0 <= i < s.entries().len() ==> (#[trigger] s.entries()[i]).0
                        == strategies_in_file@[i].table_name && compiled_table(
                        s.entries()[i].1,
                        strategies_in_file@[i],
                        *transformer_overrides,
                    )
            },
            r matches Err(e) ==> {
                &&& columns_view(e.unanonymised_pii@) == doc_hits(
                    strategies_in_file@,
                    unmasked_pii(*transformer_overrides),
                )
                &&& columns_view(e.unknown_data_categories@) == doc_hits(
                    strategies_in_file@,
                    unknown_category(),
                )
                &&& columns_view(e.error_transformer_types@) == doc_hits(
                    strategies_in_file@,
                    error_transformer(),
                )
                &&& columns_view(e.duplicate_columns@) == doc_dup_hits(strategies_in_file@)
                &&& names_view(e.duplicate_tables@) == dup_tables(strategies_in_file@)
            },
    {
        let ghost d = strategies_in_file@;
        let ghost o = *transformer_overrides;
        let mut rest = strategies_in_file;
        let mut out: Vec<(String, TableStrategy)> = Vec::new();
        let mut errors = ValidationErrors::new();
        let n = rest.len();
        let mut i: usize = 0;
        while i < n
            invariant
                n == d.len(),
                i <= n,
                o == *transformer_overrides,
                rest@ == d.subrange(i as int, n as int),
                keys_unique(out@),
                forall|k: Seq<char>| has_key(out@, k) <==> exists|m: int| 0 <= m < i && (#[trigger] d[m]).table_name@ == k,
                dup_tables(d.take(i as int)).len() == 0 && doc_dup_hits(d.take(i as int)).len() == 0 ==> {
                    &&& out@.len() == i
                    &&& forall|m: int| 0 <= m < i ==> (#[trigger] out@[m]).0 == d[m].table_name
                        && compiled_table(out@[m].1, d[m], o)
                },
                columns_view(errors.unanonymised_pii@) == doc_hits(d.take(i as int), unmasked_pii(o)),
                columns_view(errors.unknown_data_categories@) == doc_hits(d.take(i as int), unknown_category()),
                columns_view(errors.error_transformer_types@) == doc_hits(d.take(i as int), error_transformer()),
                columns_view(errors.duplicate_columns@) == doc_dup_hits(d.take(i as int)),
                names_view(errors.duplicate_tables@) == dup_tables(d.take(i as int)),
            decreases n - i,
        {
            let ghost e1 = errors;
            let ghost out0 = out@;
            let strategy = rest.remove(0);
            assert(strategy == d[i as int]);
            let StrategyInFile { table_name, description: _, truncate, columns } = strategy;
            let ghost cs = columns@;
            let compiled = compile_columns(&table_name, columns, transformer_overrides, &mut errors);
            let ghost nm = table_name@;
            let found = find_last(&out, table_name.as_str());
            match found {
                Some(k) => {
                    proof {
                        assert(out@[k as int].0@ == nm);
                        assert(has_key(out@, nm));
                        let m = choose|m: int| 0 <= m < i && (#[trigger] d[m]).table_name@ == nm;
                        assert(d.take(i + 1)[m] == d[m]);
                        assert(last_table_repeats(d.take(i + 1)));
                    }
                    errors.duplicate_tables.push(table_name);
                },
                None => {
                    proof {
                        if last_table_repeats(d.take(i + 1)) {
                            let m = choose|m: int| 0 <= m < i && (#[trigger] d.take(i + 1)[m]).table_name@ == nm;
                            assert(d[m].table_name@ == nm);
                        }
                    }
                    let policy = if truncate {
                        TableStrategy::Truncate
                    } else {
                        TableStrategy::Columns(compiled)
                    };
                    out.push((table_name, policy));
                    proof {
                        assert forall|a: int, b: int|
                            0 <= a < out@.len() && 0 <= b < out@.len() && a != b implies (#[trigger] out@[a]).0@
                                != (#[trigger] out@[b]).0@ by {
                            if a < out0.len() {
                                assert(out@[a] == out0[a]);
                                if out0[a].0@ == nm {
                                    assert(has_key(out0, nm));
                                }
                            }
                            if b < out0.len() {
                                assert(out@[b] == out0[b]);
                                if out0[b].0@ == nm {
                                    assert(has_key(out0, nm));
                                }
                            }
                        }
                    }
                },
            }
            proof {
                let t = d[i as int];
                let dt = d.take(i + 1);
                assert(dt.drop_last() =~= d.take(i as int));
                assert(dt.last() == t);
                let e: Seq<Seq<char>> = seq![];
                assert(dup_tables(dt) == dup_tables(d.take(i as int)) + if last_table_repeats(dt) { seq![nm] } else { e });
                assert(names_view(errors.duplicate_tables@) =~= names_view(e1.duplicate_tables@) + if last_table_repeats(dt) { seq![nm] } else { e });
                assert(names_view(errors.duplicate_tables@) =~= dup_tables(dt));
                assert(columns_view(errors.unanonymised_pii@) =~= doc_hits(dt, unmasked_pii(o)));
                assert(columns_view(errors.unknown_data_categories@) =~= doc_hits(dt, unknown_category()));
                assert(columns_view(errors.error_transformer_types@) =~= doc_hits(dt, error_transformer()));
                assert(columns_view(errors.duplicate_columns@) =~= doc_dup_hits(dt));
                assert forall|k: Seq<char>|
                    has_key(out@, k) <==> exists|m: int| 0 <= m < i + 1 && (#[trigger] d[m]).table_name@ == k by {
                    if has_key(out@, k) {
                        let a = choose|a: int| 0 <= a < out@.len() && (#[trigger] out@[a]).0@ == k;
                        if a < out0.len() {
                            assert(out0[a] == out@[a]);
                            assert(has_key(out0, k));
                        } else {
                            assert(d[i as int].table_name@ == k);
                        }
                    }
                    if exists|m: int| 0 <= m < i + 1 && (#[trigger] d[m]).table_name@ == k {
                        let m = choose|m: int| 0 <= m < i + 1 && (#[trigger] d[m]).table_name@ == k;
                        if m < i {
                            assert(has_key(out0, k));
                            let a = choose|a: int| 0 <= a < out0.len() && (#[trigger] out0[a]).0@ == k;
                            assert(out@[a] == out0[a]);
                        } else if has_key(out0, k) {
                            let a = choose|a: int| 0 <= a < out0.len() && (#[trigger] out0[a]).0@ == k;
                            assert(out@[a] == out0[a]);
                        } else {
                            assert(out@[out@.len() - 1].0@ == k);
                        }
                    }
                }
                if dup_tables(dt).len() == 0 && doc_dup_hits(dt).len() == 0 {
                    assert(dup_hits(nm, cs).len() == 0);
                    assert forall|m: int| 0 <= m < i + 1 implies (#[trigger] out@[m]).0 == d[m].table_name
                        && compiled_table(out@[m].1, d[m], o) by {
                        if m < i {
                            assert(out@[m] == out0[m]);
                        }
                    }
                }
            }
            i = i + 1;
        }
        proof {
            assert(d.take(n as int) =~= d);
        }
        if ValidationErrors::is_empty(&errors) {
            Ok(Strategies { tables: out })
        } else {
            Err(errors)
        }
    }
}

impl Strategies {
    pub fn for_table(&self, table_name: &str) -> (r: Option<&TableStrategy>)
        requires
            self.wf(),
        ensures
            r is Some <==> self@.contains_key(table_name@),
            r matches Some(t) ==> *t == self@[table_name@],
    {
        match find_last(&self.tables, table_name) {
            Some(i) => {
                proof {
                    lemma_assoc_last(self.tables@, i as int);
                }
                Some(&self.tables[i].1)
            },
            None => {
                proof {
                    lemma_assoc_dom(self.tables@, table_name@);
                }
                None
            },
        }
    }

    /// Sets the column policies of a table, handing back its previous policy.
    pub fn insert(&mut self, table_name: String, columns: Vec<(String, ColumnInfo)>) -> (r: Option<
        TableStrategy,
    >)
        requires
            old(self).wf(),
        ensures
            final(self).wf(),
            final(self)@ == old(self)@.insert(table_name@, TableStrategy::Columns(columns)),
            r is Some <==> old(self)@.contains_key(table_name@),
            r matches Some(t) ==> t == old(self)@[table_name@],
    {
        let ghost s = self.tables@;
        let ghost k = table_name@;
        match find_last(&self.tables, table_name.as_str()) {
            Some(i) => {
                proof {
                    lemma_assoc_last(s, i as int);
                    lemma_assoc_update(s, i as int, table_name, TableStrategy::Columns(columns));
                }
                let previous = self.tables.remove(i);
                self.tables.insert(i, (table_name, TableStrategy::Columns(columns)));
                proof {
                    assert(self.tables@ =~= s.update(i as int, (table_name, TableStrategy::Columns(columns))));
                    assert forall|a: int, b: int|
                        0 <= a < self.tables@.len() && 0 <= b < self.tables@.len() && a != b
                        implies (#[trigger] self.tables@[a]).0@ != (#[trigger] self.tables@[b]).0@ by {
                        assert(s[a].0@ == self.tables@[a].0@);
                        assert(s[b].0@ == self.tables@[b].0@);
                    }
                }
                Some(previous.1)
            },
            None => {
                proof {
                    lemma_assoc_dom(s, k);
                    crate::assoc::lemma_assoc_push(s, (table_name, TableStrategy::Columns(columns)));
                }
                self.tables.push((table_name, TableStrategy::Columns(columns)));
                proof {
                    assert forall|a: int, b: int|
                        0 <= a < self.tables@.len() && 0 <= b < self.tables@.len() && a != b
                        implies (#[trigger] self.tables@[a]).0@ != (#[trigger] self.tables@[b]).0@ by {
                        if a < s.len() {
                            assert(self.tables@[a] == s[a]);
                            if s[a].0@ == k {
                                assert(has_key(s, k));
                            }
                        }
                        if b < s.len() {
                            assert(self.tables@[b] == s[b]);
                            if s[b].0@ == k {
                                assert(has_key(s, k));
                            }
                        }
                    }
                }
                None
            },
        }
    }

    /// The transformer of a column, where its table has per-column policies
    /// that name it.
    pub fn transformer_for_column(&self, table_name: &str, column_name: &str) -> (r: Option<
        Transformer,
    >)
        requires
            self.wf(),
        ensures
            r is Some <==> column_policy(self@, table_name@, column_name@) is Some,
            r matches Some(t) ==> same_transformer(
                t,
                column_policy(self@, table_name@, column_name@)->Some_0.transformer,
            ),
    {
        match self.for_table(table_name) {
            Some(TableStrategy::Columns(columns)) => match find_last(columns, column_name) {
                Some(i) => {
                    proof {
                        lemma_assoc_last(columns@, i as int);
                    }
                    Some(copy_transformer(&columns[i].1.transformer))
                },
                None => {
                    proof {
                        lemma_assoc_dom(columns@, column_name@);
                    }
                    None
                },
            },
            _ => None,
        }
    }

    pub fn new_from(table_name: String, columns: Vec<(String, ColumnInfo)>) -> (r: Strategies)
        ensures
            r.wf(),
            r@ == Map::<Seq<char>, TableStrategy>::empty().insert(
                table_name@,
                TableStrategy::Columns(columns),
            ),
    {
        let mut r = Strategies::new();
        r.insert(table_name, columns);
        r
    }
}

/// The policy of a column in a policy set, where its table has per-column
/// policies that name it.
pub open spec fn column_policy(m: Map<Seq<char>, TableStrategy>, t: Seq<char>, c: Seq<char>) -> Option<ColumnInfo> {
    if m.contains_key(t) {
        match m[t] {
            TableStrategy::Columns(v) => if assoc(v@).contains_key(c) {
                Some(assoc(v@)[c])
            } else {
                None
            },
            TableStrategy::Truncate => None,
        }
    } else {
        None
    }
}

/// The qualified columns that the column-bearing tables of a policy set name.
pub open spec fn policy_columns(m: Map<Seq<char>, TableStrategy>) -> Set<(Seq<char>, Seq<char>)> {
    Set::new(|q: (Seq<char>, Seq<char>)| column_policy(m, q.0, q.1) is Some)
}

/// The qualified columns of a live schema listing.
pub open spec fn live_columns(db: Seq<SimpleColumn>) -> Set<(Seq<char>, Seq<char>)> {
    columns_view(db).to_set()
}

/// Whether one of the first `j` pairs of `cols`, under table name `t`, is the column `q`.
pub open spec fn names_within(t: Seq<char>, cols: Seq<(String, ColumnInfo)>, j: int, q: (Seq<char>, Seq<char>)) -> bool {
    t == q.0 && exists|b: int| 0 <= b < j && (#[trigger] cols[b]).0@ == q.1
}

/// Whether table entry `e` has per-column policies and names the column `q`.
pub open spec fn entry_names(e: (String, TableStrategy), q: (Seq<char>, Seq<char>)) -> bool {
    e.0@ == q.0 && (e.1 matches TableStrategy::Columns(v) && has_key(v@, q.1))
}

impl Strategies {
    /// Every qualified column of the column-bearing tables, once each.
    fn policy_column_list(&self) -> (r: Vec<SimpleColumn>)
        requires
            self.wf(),
        ensures
            columns_view(r@).to_set() == policy_columns(self@),
    {
        let ghost es = self.tables@;
        let mut out: Vec<SimpleColumn> = Vec::new();
        let mut i: usize = 0;
        while i < self.tables.len()
            invariant
                es == self.tables@,
                i <= es.len(),
                forall|q: (Seq<char>, Seq<char>)| columns_view(out@).contains(q) <==> exists|a: int| 0 <= a < i && entry_names(#[trigger] es[a], q),
            decreases es.len() - i,
        {
            let ghost out0 = columns_view(out@);
            match &self.tables[i].1 {
                TableStrategy::Columns(columns) => {
                    let mut j: usize = 0;
                    while j < columns.len()
                        invariant
                            es == self.tables@,
                            i < es.len(),
                            es[i as int].1 == TableStrategy::Columns(*columns),
                            j <= columns@.len(),
                            forall|q: (Seq<char>, Seq<char>)| out0.contains(q) <==> exists|a: int| 0 <= a < i && entry_names(#[trigger] es[a], q),
                            forall|q: (Seq<char>, Seq<char>)| columns_view(out@).contains(q) <==> (out0.contains(q) || names_within(es[i as int].0@, columns@, j as int, q)),
                        decreases columns@.len() - j,
                    {
                        let ghost before = columns_view(out@);
                        let c = qualified(&columns[j].0, &self.tables[i].0);
                        out.push(c);
                        let ghost jj = j as int;
                        j = j + 1;
                        let ghost jn = j as int;
                        proof {
                            assert(columns_view(out@) =~= before.push(c@));
                            assert forall|q: (Seq<char>, Seq<char>)| columns_view(out@).contains(q) <==> (out0.contains(q) || names_within(es[i as int].0@, columns@, jn, q)) by {
                                if columns_view(out@).contains(q) && q != c@ {
                                    let k = choose|k: int| 0 <= k < columns_view(out@).len() && columns_view(out@)[k] == q;
                                    assert(before[k] == q);
                                    assert(before.contains(q));
                                }
                                if out0.contains(q) {
                                    assert(before.contains(q));
                                    let k = choose|k: int| 0 <= k < before.len() && before[k] == q;
                                    assert(columns_view(out@)[k] == q);
                                }
                                if q == c@ {
                                    assert(columns_view(out@)[before.len() as int] == q);
                                    assert(columns@[jj].0@ == q.1);
                                }
                                if names_within(es[i as int].0@, columns@, jj, q) {
                                    let b = choose|b: int| 0 <= b < jj && (#[trigger] columns@[b]).0@ == q.1;
                                    assert(names_within(es[i as int].0@, columns@, jn, q));
                                }
                                if names_within(es[i as int].0@, columns@, jn, q) {
                                    let b = choose|b: int| 0 <= b < jn && (#[trigger] columns@[b]).0@ == q.1;
                                    if b == jj {
                                        assert(q == c@);
                                        assert(columns_view(out@)[before.len() as int] == q);
                                    } else {
                                        assert(before.contains(q));
                                        let k = choose|k: int| 0 <= k < before.len() && before[k] == q;
                                        assert(columns_view(out@)[k] == q);
                                    }
                                }
                            }
                        }
                    }
                    proof {
                        assert forall|q: (Seq<char>, Seq<char>)| columns_view(out@).contains(q) <==> exists|a: int| 0 <= a < i + 1 && entry_names(#[trigger] es[a], q) by {
                            if names_within(es[i as int].0@, columns@, j as int, q) {
                                let b = choose|b: int| 0 <= b < j && (#[trigger] columns@[b]).0@ == q.1;
                                assert(has_key(columns@, q.1));
                                assert(entry_names(es[i as int], q));
                            }
                            if out0.contains(q) {
                                let a = choose|a: int| 0 <= a < i && entry_names(#[trigger] es[a], q);
                                assert(entry_names(es[a], q));
                            }
                            if exists|a: int| 0 <= a < i + 1 && entry_names(#[trigger] es[a], q) {
                                let a = choose|a: int| 0 <= a < i + 1 && entry_names(#[trigger] es[a], q);
                                if a == i {
                                    assert(has_key(columns@, q.1));
                                    let b = choose|b: int| 0 <= b < columns@.len() && (#[trigger] columns@[b]).0@ == q.1;
                                    assert(names_within(es[i as int].0@, columns@, j as int, q));
                                } else {
                                    assert(out0.contains(q));
                                }
                            }
                        }
                    }
                },
                TableStrategy::Truncate => {
                    proof {
                        assert forall|q: (Seq<char>, Seq<char>)| columns_view(out@).contains(q) <==> exists|a: int| 0 <= a < i + 1 && entry_names(#[trigger] es[a], q) by {
                            if exists|a: int| 0 <= a < i + 1 && entry_names(#[trigger] es[a], q) {
                                let a = choose|a: int| 0 <= a < i + 1 && entry_names(#[trigger] es[a], q);
                                assert(a != i);
                            }
                        }
                    }
                },
            }
            i = i + 1;
        }
        proof {
            assert forall|q: (Seq<char>, Seq<char>)| columns_view(out@).to_set().contains(q) <==> policy_columns(self@).contains(q) by {
                lemma_assoc_dom(es, q.0);
                if exists|a: int| 0 <= a < es.len() && entry_names(#[trigger] es[a], q) {
                    let a = choose|a: int| 0 <= a < es.len() && entry_names(#[trigger] es[a], q);
                    lemma_assoc_last(es, a);
                    if let TableStrategy::Columns(v) = es[a].1 {
                        lemma_assoc_dom(v@, q.1);
                    }
                }
                if policy_columns(self@).contains(q) {
                    let a = choose|a: int| 0 <= a < es.len() && (#[trigger] es[a]).0@ == q.0;
                    lemma_assoc_last(es, a);
                    if let TableStrategy::Columns(v) = es[a].1 {
                        lemma_assoc_dom(v@, q.1);
                    }
                    assert(entry_names(es[a], q));
                }
            }
            assert(columns_view(out@).to_set() =~= policy_columns(self@));
        }
        out
    }
}

/// The columns of `from` that `other` lacks, sorted, each once.
fn missing_columns(from: &Vec<SimpleColumn>, other: &Vec<SimpleColumn>) -> (r: Vec<SimpleColumn>)
    ensures
        strictly_sorted(columns_view(r@)),
        columns_view(r@).to_set() == columns_view(from@).to_set().difference(columns_view(other@).to_set()),
{
    let ghost o = columns_view(other@).to_set();
    let mut out: Vec<SimpleColumn> = Vec::new();
    let mut i: usize = 0;
    proof {
        assert(columns_view(out@).to_set() =~= columns_view(from@.take(0)).to_set().difference(o));
    }
    while i < from.len()
        invariant
            i <= from@.len(),
            o == columns_view(other@).to_set(),
            strictly_sorted(columns_view(out@)),
            columns_view(out@).to_set() == columns_view(from@.take(i as int)).to_set().difference(o),
        decreases from@.len() - i,
    {
        let ghost s0 = columns_view(out@).to_set();
        let present = holds_column(other, &from[i]);
        proof {
            assert(columns_view(from@.take(i + 1)) =~= columns_view(from@.take(i as int)).push(from@[i as int]@));
            columns_view(from@.take(i as int)).lemma_push_to_set_commute(from@[i as int]@);
        }
        if !present {
            let c = qualified(&from[i].column_name, &from[i].table_name);
            insert_sorted(&mut out, c);
        }
        proof {
            assert(columns_view(out@).to_set() =~= columns_view(from@.take(i + 1)).to_set().difference(o));
        }
        i = i + 1;
    }
    proof {
        assert(from@.take(from@.len() as int) =~= from@);
    }
    out
}

impl Strategies {
    /// Compares the columns of the column-bearing tables with those of the live
    /// schema; the columns missing on either side are reported sorted.
    pub fn validate_against_db(&self, columns_from_db: Vec<SimpleColumn>) -> (r: Result<(), DbErrors>)
        requires
            self.wf(),
        ensures
            r is Ok <==> policy_columns(self@) == live_columns(columns_from_db@),
            r matches Err(e) ==> {
                &&& strictly_sorted(columns_view(e.missing_from_strategy_file@))
                &&& strictly_sorted(columns_view(e.missing_from_db@))
                &&& columns_view(e.missing_from_strategy_file@).to_set() == live_columns(
                    columns_from_db@,
                ).difference(policy_columns(self@))
                &&& columns_view(e.missing_from_db@).to_set() == policy_columns(self@).difference(
                    live_columns(columns_from_db@),
                )
            },
    {
        let from_strategy_file = self.policy_column_list();
        let errors = DbErrors {
            missing_from_strategy_file: missing_columns(&columns_from_db, &from_strategy_file),
            missing_from_db: missing_columns(&from_strategy_file, &columns_from_db),
        };
        proof {
            let p = policy_columns(self@);
            let l = live_columns(columns_from_db@);
            let a = columns_view(errors.missing_from_strategy_file@);
            let b = columns_view(errors.missing_from_db@);
            if a.len() == 0 && b.len() == 0 {
                assert(a.to_set() =~= Set::empty());
                assert(b.to_set() =~= Set::empty());
                assert forall|q| p.contains(q) <==> l.contains(q) by {
                    assert(!a.to_set().contains(q));
                    assert(!b.to_set().contains(q));
                }
                assert(p =~= l);
            }
            if p == l {
                if a.len() > 0 {
                    assert(a.to_set().contains(a[0]));
                }
                if b.len() > 0 {
                    assert(b.to_set().contains(b[0]));
                }
            }
        }
        if DbErrors::is_empty(&errors) {
            Ok(())
        } else {
            Err(errors)
        }
    }
}

/// Two transformers of the same kind with the same arguments.
pub open spec fn same_transformer(a: Transformer, b: Transformer) -> bool {
    &&& a.name == b.name
    &&& a.args is Some <==> b.args is Some
    &&& a.args is Some ==> a.args->Some_0@ == b.args->Some_0@
}

pub(crate) fn copy_transformer(t: &Transformer) -> (r: Transformer)
    ensures
        same_transformer(r, *t),
{
    let args = match &t.args {
        Some(v) => {
            let mut out: Vec<(String, String)> = Vec::new();
            let mut i: usize = 0;
            while i < v.len()
                invariant
                    i <= v@.len(),
                    out@ =~= v@.take(i as int),
                decreases v@.len() - i,
            {
                out.push((v[i].0.clone(), v[i].1.clone()));
                proof {
                    assert(v@.take(i + 1) =~= v@.take(i as int).push(v@[i as int]));
                }
                i = i + 1;
            }
            proof {
                assert(v@.take(v@.len() as int) =~= v@);
            }
            Some(out)
        },
        None => None,
    };
    Transformer { name: t.name, args }
}

impl TableStrategy {
    pub fn to_columns(self) -> (r: Vec<(String, ColumnInfo)>)
        requires
            self is Columns,
        ensures
            self == TableStrategy::Columns(r),
    {
        match self {
            TableStrategy::Columns(c) => c,
            TableStrategy::Truncate => Vec::new(),
        }
    }
}

fn qualified(column_name: &String, table_name: &String) -> (r: SimpleColumn)
    ensures
        r@ == (table_name@, column_name@),
{
    SimpleColumn { table_name: table_name.clone(), column_name: column_name.clone() }
}

proof fn lemma_hits_step(t: Seq<char>, cs: Seq<ColumnInFile>, j: int, p: spec_fn(ColumnInFile) -> bool)
    requires
        0 <= j < cs.len(),
    ensures
        hits(t, cs.take(j + 1), p) == hits(t, cs.take(j), p) + if p(cs[j]) {
            seq![(t, cs[j].name@)]
        } else {
            seq![]
        },
{
    assert(cs.take(j + 1).drop_last() =~= cs.take(j));
}

/// Compiles the columns of one table entry, keeping the first of each name and
/// appending the problems found to `errors`.
fn compile_columns(
    table_name: &String,
    columns: Vec<ColumnInFile>,
    overrides: &TransformerOverrides,
    errors: &mut ValidationErrors,
) -> (r: Vec<(String, ColumnInfo)>)
    ensures
        keys_unique(r@),
        forall|k: Seq<char>| has_key(r@, k) <==> exists|m: int| 0 <= m < columns@.len() && (#[trigger] columns@[m]).name@ == k,
        dup_hits(table_name@, columns@).len() == 0 ==> r@ == columns@.map_values(compiled_column(*overrides)),
        columns_view(final(errors).unanonymised_pii@) == columns_view(old(errors).unanonymised_pii@)
            + hits(table_name@, columns@, unmasked_pii(*overrides)),
        columns_view(final(errors).unknown_data_categories@) == columns_view(old(errors).unknown_data_categories@)
            + hits(table_name@, columns@, unknown_category()),
        columns_view(final(errors).error_transformer_types@) == columns_view(old(errors).error_transformer_types@)
            + hits(table_name@, columns@, error_transformer()),
        columns_view(final(errors).duplicate_columns@) == columns_view(old(errors).duplicate_columns@)
            + dup_hits(table_name@, columns@),
        final(errors).duplicate_tables == old(errors).duplicate_tables,
{
    let ghost cs = columns@;
    let ghost o = *overrides;
    let ghost e0 = *errors;
    let mut rest = columns;
    let mut out: Vec<(String, ColumnInfo)> = Vec::new();
    let n = rest.len();
    let mut j: usize = 0;
    while j < n
        invariant
            n == cs.len(),
            j <= n,
            o == *overrides,
            rest@ == cs.subrange(j as int, n as int),
            keys_unique(out@),
            forall|k: Seq<char>| has_key(out@, k) <==> exists|m: int| 0 <= m < j && (#[trigger] cs[m]).name@ == k,
            dup_hits(table_name@, cs.take(j as int)).len() == 0 ==> out@ == cs.take(j as int).map_values(compiled_column(o)),
            columns_view(errors.unanonymised_pii@) == columns_view(e0.unanonymised_pii@)
                + hits(table_name@, cs.take(j as int), unmasked_pii(o)),
            columns_view(errors.unknown_data_categories@) == columns_view(e0.unknown_data_categories@)
                + hits(table_name@, cs.take(j as int), unknown_category()),
            columns_view(errors.error_transformer_types@) == columns_view(e0.error_transformer_types@)
                + hits(table_name@, cs.take(j as int), error_transformer()),
            columns_view(errors.duplicate_columns@) == columns_view(e0.duplicate_columns@)
                + dup_hits(table_name@, cs.take(j as int)),
            errors.duplicate_tables == e0.duplicate_tables,
        decreases n - j,
    {
        let ghost e1 = *errors;
        let column = rest.remove(0);
        assert(column == cs[j as int]);
        proof {
            lemma_hits_step(table_name@, cs, j as int, unmasked_pii(o));
            lemma_hits_step(table_name@, cs, j as int, unknown_category());
            lemma_hits_step(table_name@, cs, j as int, error_transformer());
            assert(cs.take(j + 1).drop_last() =~= cs.take(j as int));
            assert(cs.take(j + 1).last() == cs[j as int]);
        }
        let ColumnInFile { data_category, description: _, name, transformer } = column;
        let declared_name = transformer.name;
        let resolved_t = apply_transformer_overrides(data_category, overrides, transformer);
        let is_pii = data_category == DataCategory::Pii || data_category == DataCategory::PotentialPii;
        let demoted = data_category == DataCategory::PotentialPii && overrides.allow_potential_pii;
        if is_pii && resolved_t.name == TransformerType::Identity && !demoted {
            let q = qualified(&name, table_name);
            errors.unanonymised_pii.push(q);
        }
        if data_category == DataCategory::Unknown {
            let q = qualified(&name, table_name);
            errors.unknown_data_categories.push(q);
        }
        if declared_name == TransformerType::Error {
            let q = qualified(&name, table_name);
            errors.error_transformer_types.push(q);
        }
        let ghost out0 = out@;
        let ghost nm = name@;
        let found = find_last(&out, name.as_str());
        match found {
            Some(k) => {
                proof {
                    assert(out@[k as int].0@ == name@);
                    assert(has_key(out@, name@));
                    let m = choose|m: int| 0 <= m < j && (#[trigger] cs[m]).name@ == name@;
                    assert(cs.take(j + 1)[m] == cs[m]);
                    assert(last_column_repeats(cs.take(j + 1)));
                }
                let q = qualified(&name, table_name);
                errors.duplicate_columns.push(q);
            },
            None => {
                proof {
                    if last_column_repeats(cs.take(j + 1)) {
                        let m = choose|m: int| 0 <= m < j && (#[trigger] cs.take(j + 1)[m]).name@ == name@;
                        assert(cs[m].name@ == name@);
                    }
                }
                let info = ColumnInfo { data_category, name: name.clone(), transformer: resolved_t };
                out.push((name, info));
                proof {
                    assert forall|a: int, b: int|
                        0 <= a < out@.len() && 0 <= b < out@.len() && a != b implies (#[trigger] out@[a]).0@
                            != (#[trigger] out@[b]).0@ by {
                        if a < out0.len() {
                            assert(out@[a] == out0[a]);
                            if out0[a].0@ == nm {
                                assert(has_key(out0, nm));
                            }
                        }
                        if b < out0.len() {
                            assert(out@[b] == out0[b]);
                            if out0[b].0@ == nm {
                                assert(has_key(out0, nm));
                            }
                        }
                    }
                }
            },
        }
        proof {
            let c = cs[j as int];
            let t = table_name@;
            let q = seq![(t, c.name@)];
            let e: Seq<(Seq<char>, Seq<char>)> = seq![];
            assert(dup_hits(t, cs.take(j + 1)) == dup_hits(t, cs.take(j as int)) + if last_column_repeats(cs.take(j + 1)) { q } else { e });
            assert(columns_view(errors.unanonymised_pii@) =~= columns_view(e1.unanonymised_pii@) + if unmasked_pii(o)(c) { q } else { e });
            assert(columns_view(errors.unknown_data_categories@) =~= columns_view(e1.unknown_data_categories@) + if unknown_category()(c) { q } else { e });
            assert(columns_view(errors.error_transformer_types@) =~= columns_view(e1.error_transformer_types@) + if error_transformer()(c) { q } else { e });
            assert(columns_view(errors.duplicate_columns@) =~= columns_view(e1.duplicate_columns@) + if last_column_repeats(cs.take(j + 1)) { q } else { e });
            assert(columns_view(errors.unanonymised_pii@) =~= columns_view(e0.unanonymised_pii@) + hits(t, cs.take(j + 1), unmasked_pii(o)));
            assert(columns_view(errors.unknown_data_categories@) =~= columns_view(e0.unknown_data_categories@) + hits(t, cs.take(j + 1), unknown_category()));
            assert(columns_view(errors.error_transformer_types@) =~= columns_view(e0.error_transformer_types@) + hits(t, cs.take(j + 1), error_transformer()));
            assert(columns_view(errors.duplicate_columns@) =~= columns_view(e0.duplicate_columns@) + dup_hits(t, cs.take(j + 1)));
            assert(cs.take(j + 1).map_values(compiled_column(o)) =~= cs.take(j as int).map_values(
                compiled_column(o),
            ).push(compiled_column(o)(cs[j as int])));
            assert forall|k: Seq<char>|
                has_key(out@, k) <==> exists|m: int| 0 <= m < j + 1 && (#[trigger] cs[m]).name@ == k by {
                if has_key(out@, k) {
                    let i = choose|i: int| 0 <= i < out@.len() && (#[trigger] out@[i]).0@ == k;
                    if i < out0.len() {
                        assert(out0[i] == out@[i]);
                        assert(has_key(out0, k));
                    } else {
                        assert(cs[j as int].name@ == k);
                    }
                }
                if exists|m: int| 0 <= m < j + 1 && (#[trigger] cs[m]).name@ == k {
                    let m = choose|m: int| 0 <= m < j + 1 && (#[trigger] cs[m]).name@ == k;
                    if m < j {
                        assert(has_key(out0, k));
                        let i = choose|i: int| 0 <= i < out0.len() && (#[trigger] out0[i]).0@ == k;
                        assert(out@[i] == out0[i]);
                    } else if has_key(out0, k) {
                        let i = choose|i: int| 0 <= i < out0.len() && (#[trigger] out0[i]).0@ == k;
                        assert(out@[i] == out0[i]);
                    } else {
                        assert(out@[out@.len() - 1].0@ == k);
                    }
                }
            }
        }
        j = j + 1;
    }
    proof {
        assert(cs.take(n as int) =~= cs);
    }
    out
}

} // verus!
