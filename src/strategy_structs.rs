use vstd::prelude::*;
use vstd::string::*;

verus! {

/// Sensitivity classification of a column.
#[derive(Clone, Copy, Debug, PartialEq, Eq, Structural)]
pub enum DataCategory {
    General,
    PotentialPii,
    Pii,
    CommerciallySensitive,
    Unknown,
}

/// The kind of value rewriting applied to a column.
#[derive(Clone, Copy, Debug, PartialEq, Eq, Structural)]
pub enum TransformerType {
    Error,
    Identity,
    Scramble,
    ScrambleBlank,
    FakeNationalInsuranceNumber,
}

/// A transformer kind with its optional named arguments.
#[derive(Clone, Debug, PartialEq, Eq)]
pub struct Transformer {
    pub name: TransformerType,
    pub args: Option<Vec<(String, String)>>,
}

/// Flags that relax or alter the declared transformers at compile time.
#[derive(Clone, Copy, Debug, Default, PartialEq, Eq, Structural)]
pub struct TransformerOverrides {
    pub allow_potential_pii: bool,
    pub allow_commercially_sensitive: bool,
    pub scramble_blank: bool,
}

impl TransformerOverrides {
    /// No override set.
    pub fn none() -> (r: TransformerOverrides)
        ensures
            !r.allow_potential_pii,
            !r.allow_commercially_sensitive,
            !r.scramble_blank,
    {
        TransformerOverrides {
            allow_potential_pii: false,
            allow_commercially_sensitive: false,
            scramble_blank: false,
        }
    }
}

/// One column entry of a strategy document.
#[derive(Clone, Debug, PartialEq, Eq)]
pub struct ColumnInFile {
    pub data_category: DataCategory,
    pub description: String,
    pub name: String,
    pub transformer: Transformer,
}

/// One table entry of a strategy document.
#[derive(Clone, Debug, PartialEq, Eq)]
pub struct StrategyInFile {
    pub table_name: String,
    pub description: String,
    pub truncate: bool,
    pub columns: Vec<ColumnInFile>,
}

/// The compiled policy of one column.
#[derive(Clone, Debug, PartialEq, Eq)]
pub struct ColumnInfo {
    pub data_category: DataCategory,
    pub name: String,
    pub transformer: Transformer,
}

/// Builds a `ColumnInfo` field by field; a field left unset is the one that
/// compilation rejects (an empty name, the Unknown category, the Error kind).
#[derive(Clone, Debug, PartialEq, Eq)]
pub struct ColumnInfoBuilder {
    data_category: DataCategory,
    name: String,
    transformer: Transformer,
}

impl ColumnInfo {
    pub fn builder() -> (r: ColumnInfoBuilder)
        ensures
            r.build_spec().data_category == DataCategory::Unknown,
            r.build_spec().name@.len() == 0,
            r.build_spec().transformer == bare(TransformerType::Error),
    {
        ColumnInfoBuilder {
            data_category: DataCategory::Unknown,
            name: String::new(),
            transformer: Transformer { name: TransformerType::Error, args: None },
        }
    }
}

impl ColumnInfoBuilder {
    /// The column policy that `build` hands back.
    pub closed spec fn build_spec(&self) -> ColumnInfo {
        ColumnInfo { data_category: self.data_category, name: self.name, transformer: self.transformer }
    }

    pub fn with_name(self, name: &str) -> (r: ColumnInfoBuilder)
        ensures
            r.build_spec().name@ == name@,
            r.build_spec().data_category == self.build_spec().data_category,
            r.build_spec().transformer == self.build_spec().transformer,
    {
        ColumnInfoBuilder { name: String::from_str(name), ..self }
    }

    pub fn with_data_category(self, data_category: DataCategory) -> (r: ColumnInfoBuilder)
        ensures
            r.build_spec() == (ColumnInfo { data_category, ..self.build_spec() }),
    {
        ColumnInfoBuilder { data_category, ..self }
    }

    pub fn with_transformer(self, name: TransformerType, args: Option<Vec<(String, String)>>) -> (r:
        ColumnInfoBuilder)
        ensures
            r.build_spec() == (ColumnInfo { transformer: Transformer { name, args }, ..self.build_spec() }),
    {
        ColumnInfoBuilder { transformer: Transformer { name, args }, ..self }
    }

    pub fn build(self) -> (r: ColumnInfo)
        ensures
            r == self.build_spec(),
    {
        ColumnInfo { data_category: self.data_category, name: self.name, transformer: self.transformer }
    }
}

/// A column qualified by its table.
#[derive(Clone, Debug, PartialEq, Eq, Hash, PartialOrd, Ord)]
pub struct SimpleColumn {
    pub table_name: String,
    pub column_name: String,
}

impl View for SimpleColumn {
    type V = (Seq<char>, Seq<char>);

    open spec fn view(&self) -> (Seq<char>, Seq<char>) {
        (self.table_name@, self.column_name@)
    }
}

/// A transformer of the given kind with no arguments.
pub open spec fn bare(name: TransformerType) -> Transformer {
    Transformer { name, args: None }
}

/// The transformer a column ends up with once the overrides are applied:
/// category overrides come first, then the blanket scramble override.
pub open spec fn resolved(
    category: DataCategory,
    overrides: TransformerOverrides,
    declared: Transformer,
) -> Transformer {
    if category == DataCategory::PotentialPii && overrides.allow_potential_pii {
        bare(TransformerType::Identity)
    } else if category == DataCategory::CommerciallySensitive
        && overrides.allow_commercially_sensitive {
        bare(TransformerType::Identity)
    } else if overrides.scramble_blank && declared.name == TransformerType::Scramble {
        bare(TransformerType::ScrambleBlank)
    } else {
        declared
    }
}

/// Resolving with the same overrides a second time changes nothing.
pub proof fn lemma_resolution_idempotent(
    category: DataCategory,
    overrides: TransformerOverrides,
    declared: Transformer,
)
    ensures
        resolved(category, overrides, resolved(category, overrides, declared)) == resolved(
            category,
            overrides,
            declared,
        ),
{
}

pub fn apply_transformer_overrides(
    data_category: DataCategory,
    overrides: &TransformerOverrides,
    transformer: Transformer,
) -> (r: Transformer)
    ensures
        r == resolved(data_category, *overrides, transformer),
{
    match data_category {
        DataCategory::PotentialPii if overrides.allow_potential_pii => Transformer {
            name: TransformerType::Identity,
            args: None,
        },
        DataCategory::CommerciallySensitive if overrides.allow_commercially_sensitive => {
            Transformer { name: TransformerType::Identity, args: None }
        },
        _ if overrides.scramble_blank && transformer.name == TransformerType::Scramble => {
            Transformer { name: TransformerType::ScrambleBlank, args: None }
        },
        _ => transformer,
    }
}

} // verus!
