use vstd::prelude::*;
use crate::strategies::{copy_transformer, same_transformer, Strategies, TableStrategy};
use crate::strategy_structs::Transformer;

verus! {

/// The transformers bound for the row block being read: per column, or none
/// when the table's rows are all dropped.
#[derive(Clone, Debug, PartialEq)]
pub struct CurrentTableTransforms {
    pub table_name: String,
    pub transforms: Option<Vec<(String, Transformer)>>,
}

/// A row block names a table that the policy set does not declare.
#[derive(Clone, Debug, PartialEq, Eq)]
pub struct UndeclaredTable {
    pub table_name: String,
}

/// Whether `c` binds exactly the policy `ts` of table `t`.
pub open spec fn binds(c: CurrentTableTransforms, t: Seq<char>, ts: TableStrategy) -> bool {
    &&& c.table_name@ == t
    &&& match ts {
        TableStrategy::Truncate => c.transforms is None,
        TableStrategy::Columns(cols) => (c.transforms matches Some(v) && v@.len() == cols@.len()
            && forall|k: int|
            0 <= k < cols@.len() ==> (#[trigger] v@[k]).0 == cols@[k].0 && same_transformer(
                v@[k].1,
                cols@[k].1.transformer,
            )),
    }
}

/// Resolves the transformers for a row block of `table_name`. A table that the
/// policy set does not declare is refused: its rows are never passed through.
pub fn current_table_transforms(table_name: String, strategies: &Strategies) -> (r: Result<
    CurrentTableTransforms,
    UndeclaredTable,
>)
    requires
        strategies.wf(),
    ensures
        r is Err <==> !strategies@.contains_key(table_name@),
        r matches Err(e) ==> e.table_name@ == table_name@,
        r matches Ok(c) ==> binds(c, table_name@, strategies@[table_name@]),
{
    match strategies.for_table(table_name.as_str()) {
        None => Err(UndeclaredTable { table_name }),
        Some(TableStrategy::Truncate) => Ok(CurrentTableTransforms { table_name, transforms: None }),
        Some(TableStrategy::Columns(columns)) => {
            let mut v: Vec<(String, Transformer)> = Vec::new();
            let mut i: usize = 0;
            while i < columns.len()
                invariant
                    i <= columns@.len(),
                    v@.len() == i,
                    forall|k: int|
                        0 <= k < i ==> (#[trigger] v@[k]).0 == columns@[k].0 && same_transformer(
                            v@[k].1,
                            columns@[k].1.transformer,
                        ),
                decreases columns@.len() - i,
            {
                v.push((columns[i].0.clone(), copy_transformer(&columns[i].1.transformer)));
                i = i + 1;
            }
            Ok(CurrentTableTransforms { table_name, transforms: Some(v) })
        },
    }
}

} // verus!
