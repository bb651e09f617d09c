use vstd::prelude::*;
use vstd::string::*;
use crate::assoc::{assoc, find_last, lemma_assoc_dom, lemma_assoc_last, lemma_assoc_push};
use crate::copy_row::{binds, current_table_transforms, CurrentTableTransforms, UndeclaredTable};
use crate::strategies::Strategies;
use crate::types::Column;

verus! {

/// The map that (name, type) pairs denote: a later pair shadows an earlier one.
pub open spec fn pairs_map(s: Seq<(String, String)>) -> Map<Seq<char>, Seq<char>> {
    Map::new(|k: Seq<char>| assoc(s).contains_key(k), |k: Seq<char>| assoc(s)[k]@)
}

/// The registry that a list of (table, column pairs) entries denotes.
pub open spec fn registry_map(s: Seq<(String, Vec<(String, String)>)>) -> Map<
    Seq<char>,
    Map<Seq<char>, Seq<char>>,
> {
    Map::new(|k: Seq<char>| assoc(s).contains_key(k), |k: Seq<char>| pairs_map(assoc(s)[k]@))
}

/// Column name to declared type over a table declaration; a later column of
/// the same name wins.
pub open spec fn column_types(cols: Seq<Column>) -> Map<Seq<char>, Seq<char>>
    decreases cols.len(),
{
    if cols.len() == 0 {
        Map::empty()
    } else {
        column_types(cols.drop_last()).insert(cols.last().name@, cols.last().data_type@)
    }
}

/// Declared column types by table, filled as table declarations end.
#[derive(Clone, Debug, PartialEq)]
pub struct Types {
    types: Vec<(String, Vec<(String, String)>)>,
}

impl View for Types {
    type V = Map<Seq<char>, Map<Seq<char>, Seq<char>>>;

    closed spec fn view(&self) -> Map<Seq<char>, Map<Seq<char>, Seq<char>>> {
        registry_map(self.types@)
    }
}

impl Types {
    pub fn new(initial: Vec<(String, Vec<(String, String)>)>) -> (r: Types)
        ensures
            r@ == registry_map(initial@),
    {
        Types { types: initial }
    }

    /// Records the column types of a table, replacing what it had.
    pub fn insert(&mut self, table_name: &str, thing: Vec<(String, String)>)
        ensures
            final(self)@ == old(self)@.insert(table_name@, pairs_map(thing@)),
    {
        let ghost s = self.types@;
        let entry = (String::from_str(table_name), thing);
        proof {
            lemma_assoc_push(s, entry);
        }
        self.types.push(entry);
        proof {
            assert(registry_map(self.types@) =~= registry_map(s).insert(table_name@, pairs_map(thing@)));
        }
    }

    /// The declared type of a column, if its table's declaration was seen.
    pub fn lookup(&self, table_name: &str, column_name: String) -> (r: Option<String>)
        ensures
            r is Some <==> self@.contains_key(table_name@) && self@[table_name@].contains_key(
                column_name@,
            ),
            r matches Some(t) ==> t@ == self@[table_name@][column_name@],
    {
        match find_last(&self.types, table_name) {
            Some(i) => {
                proof {
                    lemma_assoc_last(self.types@, i as int);
                }
                let columns = &self.types[i].1;
                match find_last(columns, column_name.as_str()) {
                    Some(j) => {
                        proof {
                            lemma_assoc_last(columns@, j as int);
                        }
                        Some(columns[j].1.clone())
                    },
                    None => {
                        proof {
                            lemma_assoc_dom(columns@, column_name@);
                        }
                        None
                    },
                }
            },
            None => {
                proof {
                    lemma_assoc_dom(self.types@, table_name@);
                }
                None
            },
        }
    }
}

/// Where the parser stands within the dump.
#[derive(Clone, Debug, PartialEq)]
pub enum Position {
    Normal,
    InCopy { current_table: CurrentTableTransforms },
    InCreateTable { table_name: String, types: Vec<Column> },
}

/// The parser's position and the column types seen so far.
pub struct State {
    pub position: Position,
    pub types: Types,
}

/// The registry after moving from position `from` to position `to`: leaving a
/// table declaration for `Normal` records its column types.
pub open spec fn types_after(
    types: Map<Seq<char>, Map<Seq<char>, Seq<char>>>,
    from: Position,
    to: Position,
) -> Map<Seq<char>, Map<Seq<char>, Seq<char>>> {
    match from {
        Position::InCreateTable { table_name, types: cols } => if to is Normal {
            types.insert(table_name@, column_types(cols@))
        } else {
            types
        },
        _ => types,
    }
}

proof fn lemma_pairs_of_columns(pairs: Seq<(String, String)>, cols: Seq<Column>)
    requires
        pairs.len() == cols.len(),
        forall|k: int| 0 <= k < cols.len() ==> (#[trigger] pairs[k]).0@ == cols[k].name@ && pairs[k].1@ == cols[k].data_type@,
    ensures
        pairs_map(pairs) == column_types(cols),
    decreases cols.len(),
{
    if cols.len() > 0 {
        let pd = pairs.drop_last();
        let cd = cols.drop_last();
        assert forall|k: int| 0 <= k < cd.len() implies (#[trigger] pd[k]).0@ == cd[k].name@ && pd[k].1@ == cd[k].data_type@ by {
            assert(pd[k] == pairs[k]);
        }
        lemma_pairs_of_columns(pd, cd);
        assert(pairs.last() == pairs[pairs.len() - 1]);
        assert(pairs_map(pairs) =~= column_types(cols));
    } else {
        assert(pairs_map(pairs) =~= column_types(cols));
    }
}

impl State {
    pub fn new() -> (r: State)
        ensures
            r.position is Normal,
            r.types@ == Map::<Seq<char>, Map<Seq<char>, Seq<char>>>::empty(),
    {
        let r = State { position: Position::Normal, types: Types::new(Vec::new()) };
        proof {
            assert(r.types@ =~= Map::<Seq<char>, Map<Seq<char>, Seq<char>>>::empty());
        }
        r
    }

    /// Enters the row block of `table_name`, bound to its policy. Where the
    /// policy set does not declare the table, the state is left as it was and
    /// the block is refused before any of its rows is read.
    pub fn enter_copy(&mut self, table_name: String, strategies: &Strategies) -> (r: Result<(), UndeclaredTable>)
        requires
            strategies.wf(),
        ensures
            r is Err <==> !strategies@.contains_key(table_name@),
            r is Err ==> final(self).position == old(self).position,
            r is Ok ==> (final(self).position matches Position::InCopy { current_table } && binds(
                current_table,
                table_name@,
                strategies@[table_name@],
            )),
            final(self).types@ == old(self).types@,
    {
        match current_table_transforms(table_name, strategies) {
            Ok(current_table) => {
                self.update_position(Position::InCopy { current_table });
                Ok(())
            },
            Err(e) => Err(e),
        }
    }

    /// Moves to `new_position`; leaving a table declaration for `Normal`
    /// records the declared column types of that table.
    pub fn update_position(&mut self, new_position: Position)
        ensures
            final(self).position == new_position,
            final(self).types@ == types_after(old(self).types@, old(self).position, new_position),
    {
        let entering_normal = matches!(new_position, Position::Normal);
        let mut previous = new_position;
        std::mem::swap(&mut self.position, &mut previous);
        if entering_normal {
            if let Position::InCreateTable { table_name, types: columns } = previous {
                let ghost cols = columns@;
                let mut pairs: Vec<(String, String)> = Vec::new();
                let mut rest = columns;
                let n = rest.len();
                let mut j: usize = 0;
                while j < n
                    invariant
                        n == cols.len(),
                        j <= n,
                        rest@ == cols.subrange(j as int, n as int),
                        pairs@.len() == j,
                        forall|k: int| 0 <= k < j ==> (#[trigger] pairs@[k]).0@ == cols[k].name@ && pairs@[k].1@ == cols[k].data_type@,
                    decreases n - j,
                {
                    let column = rest.remove(0);
                    assert(column == cols[j as int]);
                    pairs.push((column.name, column.data_type));
                    j = j + 1;
                }
                proof {
                    lemma_pairs_of_columns(pairs@, cols);
                }
                self.types.insert(table_name.as_str(), pairs);
            }
        }
    }
}

} // verus!
