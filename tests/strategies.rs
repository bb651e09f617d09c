use anonymiser::strategies::{Strategies, TableStrategy};
use anonymiser::strategy_structs::{
    apply_transformer_overrides, ColumnInFile, ColumnInfo, DataCategory, SimpleColumn,
    StrategyInFile, Transformer, TransformerOverrides, TransformerType,
};

const TABLE_NAME: &str = "gert_lush_table";
const PII_COLUMN_NAME: &str = "pii_column";
const COMMERCIALLY_SENSITIVE_COLUMN_NAME: &str = "commercially_sensitive_column";
const SCRAMBLED_COLUMN_NAME: &str = "scrambled_column";

fn transformer_for_column(column_name: &str, strategies: &Strategies) -> Transformer {
    strategies
        .transformer_for_column(TABLE_NAME, column_name)
        .expect("expecting a transformer!")
}

fn column_in_file(
    data_category: DataCategory,
    name: &str,
    transformer_type: TransformerType,
) -> ColumnInFile {
    ColumnInFile {
        data_category,
        description: name.to_string(),
        name: name.to_string(),
        transformer: Transformer {
            name: transformer_type,
            args: None,
        },
    }
}

fn create_strategy(table_name: &str, columns: Vec<(String, ColumnInfo)>) -> Strategies {
    let mut strategies = Strategies::new();
    strategies.insert(table_name.to_string(), columns);
    strategies
}

fn add_table(strategies: &mut Strategies, table_name: &str, columns: Vec<(String, ColumnInfo)>) {
    strategies.insert(table_name.to_string(), columns);
}

fn create_column(column_name: &str) -> (String, ColumnInfo) {
    create_column_with_data_and_transformer_type(
        column_name,
        DataCategory::General,
        TransformerType::Identity,
    )
}

fn create_column_with_data_and_transformer_type(
    column_name: &str,
    data_category: DataCategory,
    transformer_type: TransformerType,
) -> (String, ColumnInfo) {
    (
        column_name.to_string(),
        ColumnInfo::builder()
            .with_name(column_name)
            .with_data_category(data_category)
            .with_transformer(transformer_type, None)
            .build(),
    )
}

fn create_simple_column(table_name: &str, column_name: &str) -> SimpleColumn {
    SimpleColumn {
        table_name: table_name.to_string(),
        column_name: column_name.to_string(),
    }
}

fn strategy_in_file(table_name: &str, truncate: bool, columns: Vec<ColumnInFile>) -> StrategyInFile {
    StrategyInFile {
        table_name: table_name.to_string(),
        description: "description".to_string(),
        truncate,
        columns,
    }
}

#[test]
fn validate_against_db_returns_ok_with_matching_fields() {
    let mut strategies = create_strategy("public.person", vec![create_column("first_name")]);

    add_table(&mut strategies, "public.location", vec![create_column("postcode")]);

    let columns_from_db = vec![
        create_simple_column("public.person", "first_name"),
        create_simple_column("public.location", "postcode"),
    ];

    let result = strategies.validate_against_db(columns_from_db);

    assert!(result.is_ok());
}

#[test]
fn validate_against_db_returns_fields_missing_from_strategy_file_that_are_in_the_db() {
    let strategies = create_strategy("public.person", vec![create_column("first_name")]);

    let columns_from_db = vec![
        create_simple_column("public.person", "first_name"),
        create_simple_column("public.location", "postcode"),
    ];

    let result = strategies.validate_against_db(columns_from_db);

    let error = result.unwrap_err();
    assert!(error.missing_from_db.is_empty());
    assert_eq!(
        error.missing_from_strategy_file,
        vec!(create_simple_column("public.location", "postcode"))
    );
}

#[test]
fn validate_against_db_returns_fields_missing_from_the_db_but_are_in_the_strategy_file() {
    let mut strategies = create_strategy("public.person", vec![create_column("first_name")]);

    add_table(&mut strategies, "public.location", vec![create_column("postcode")]);

    let columns_from_db = vec![create_simple_column("public.person", "first_name")];

    let result = strategies.validate_against_db(columns_from_db);

    let error = result.unwrap_err();
    assert!(error.missing_from_strategy_file.is_empty());
    assert_eq!(
        error.missing_from_db,
        vec!(create_simple_column("public.location", "postcode"))
    );
}

#[test]
fn validate_against_db_returns_fields_missing_both() {
    let strategies = create_strategy("public.person", vec![create_column("first_name")]);

    let columns_from_db = vec![create_simple_column("public.location", "postcode")];

    let result = strategies.validate_against_db(columns_from_db);

    let error = result.unwrap_err();
    assert_eq!(
        error.missing_from_strategy_file,
        vec!(create_simple_column("public.location", "postcode"))
    );
    assert_eq!(
        error.missing_from_db,
        vec!(create_simple_column("public.person", "first_name"))
    );
}

#[test]
fn from_strategies_in_file_can_parse_file_contents_into_hashmaps() {
    let column_name = "column1";

    let strategies = vec![StrategyInFile {
        table_name: TABLE_NAME.to_string(),
        description: "description".to_string(),
        truncate: false,
        columns: vec![column_in_file(
            DataCategory::Pii,
            column_name,
            TransformerType::Scramble,
        )],
    }];

    let expected = Strategies::new_from(
        TABLE_NAME.to_string(),
        vec![(
            column_name.to_string(),
            ColumnInfo::builder()
                .with_name(column_name)
                .with_data_category(DataCategory::Pii)
                .with_transformer(TransformerType::Scramble, None)
                .build(),
        )],
    );
    let parsed = Strategies::from_strategies_in_file(strategies, &TransformerOverrides::none())
        .expect("we shouldnt have duplicate columns!");
    assert_eq!(expected, parsed);
}

#[test]
fn from_strategies_in_file_returns_errors_for_duplicate_table_and_column_definitions() {
    let table2_name = "daps";
    let column_name = "column1";
    let duplicated_column = column_in_file(DataCategory::Pii, column_name, TransformerType::Scramble);

    let strategies = vec![
        StrategyInFile {
            table_name: TABLE_NAME.to_string(),
            description: "description".to_string(),
            truncate: false,
            columns: vec![],
        },
        StrategyInFile {
            table_name: TABLE_NAME.to_string(),
            description: "description".to_string(),
            truncate: false,
            columns: vec![],
        },
        StrategyInFile {
            table_name: table2_name.to_string(),
            description: "description".to_string(),
            truncate: false,
            columns: vec![duplicated_column.clone(), duplicated_column],
        },
    ];

    let error = Strategies::from_strategies_in_file(strategies, &TransformerOverrides::none())
        .expect_err("We should have a duplicate table error");

    assert_eq!(error.duplicate_tables, vec![TABLE_NAME.to_string()]);
    assert_eq!(
        error.duplicate_columns,
        vec![create_simple_column(table2_name, column_name)]
    );
}

#[test]
fn from_strategies_in_file_returns_errors_for_columns_missing_data_category() {
    let strategies = vec![StrategyInFile {
        table_name: "public.person".to_string(),
        description: "description".to_string(),
        truncate: false,
        columns: vec![column_in_file(
            DataCategory::Unknown,
            "first_name",
            TransformerType::Identity,
        )],
    }];

    let result = Strategies::from_strategies_in_file(strategies, &TransformerOverrides::none());

    let error = result.unwrap_err();
    assert_eq!(
        error.unknown_data_categories,
        vec!(create_simple_column("public.person", "first_name"))
    );
}

#[test]
fn from_strategies_in_file_returns_errors_for_columns_with_error_transformer_types() {
    let strategies = vec![StrategyInFile {
        table_name: "public.person".to_string(),
        description: "description".to_string(),
        truncate: false,
        columns: vec![column_in_file(
            DataCategory::General,
            "first_name",
            TransformerType::Error,
        )],
    }];

    let result = Strategies::from_strategies_in_file(strategies, &TransformerOverrides::none());

    let error = result.unwrap_err();
    assert_eq!(
        error.error_transformer_types,
        vec!(create_simple_column("public.person", "first_name"))
    );
}

#[test]
fn from_strategies_in_file_returns_errors_for_pii_columns_with_identity_transformer() {
    let strategies = vec![StrategyInFile {
        table_name: "public.person".to_string(),
        description: "description".to_string(),
        truncate: false,
        columns: vec![
            column_in_file(DataCategory::Pii, "first_name", TransformerType::Identity),
            column_in_file(
                DataCategory::PotentialPii,
                "last_name",
                TransformerType::Identity,
            ),
        ],
    }];

    let result = Strategies::from_strategies_in_file(strategies, &TransformerOverrides::none());

    let error = result.unwrap_err();

    assert_eq!(
        error.unanonymised_pii,
        vec!(
            create_simple_column("public.person", "first_name"),
            create_simple_column("public.person", "last_name")
        )
    );
}

#[test]
fn from_strategies_in_file_ignores_transformers_for_potential_pii_if_flag_provided() {
    let strategies = vec![StrategyInFile {
        table_name: TABLE_NAME.to_string(),
        description: "description".to_string(),
        truncate: false,
        columns: vec![
            column_in_file(
                DataCategory::PotentialPii,
                PII_COLUMN_NAME,
                TransformerType::Scramble,
            ),
            column_in_file(
                DataCategory::CommerciallySensitive,
                COMMERCIALLY_SENSITIVE_COLUMN_NAME,
                TransformerType::Scramble,
            ),
        ],
    }];

    let parsed = Strategies::from_strategies_in_file(
        strategies,
        &TransformerOverrides {
            allow_potential_pii: true,
            allow_commercially_sensitive: false,
            ..Default::default()
        },
    )
    .expect("we shouldnt have duplicate columns!");
    let pii_column_transformer = transformer_for_column(PII_COLUMN_NAME, &parsed);
    let commercially_sensitive_transformer =
        transformer_for_column(COMMERCIALLY_SENSITIVE_COLUMN_NAME, &parsed);

    assert_eq!(pii_column_transformer.name, TransformerType::Identity);
    assert_eq!(pii_column_transformer.args, None);

    assert_eq!(
        commercially_sensitive_transformer.name,
        TransformerType::Scramble
    );
    assert_eq!(commercially_sensitive_transformer.args, None);
}

#[test]
fn from_strategies_in_file_ignores_transformers_for_commercially_sensitive_if_flag_provided() {
    let strategies = vec![StrategyInFile {
        table_name: TABLE_NAME.to_string(),
        description: "description".to_string(),
        truncate: false,
        columns: vec![
            column_in_file(
                DataCategory::PotentialPii,
                PII_COLUMN_NAME,
                TransformerType::Scramble,
            ),
            column_in_file(
                DataCategory::CommerciallySensitive,
                COMMERCIALLY_SENSITIVE_COLUMN_NAME,
                TransformerType::Scramble,
            ),
        ],
    }];

    let parsed = Strategies::from_strategies_in_file(
        strategies,
        &TransformerOverrides {
            allow_potential_pii: false,
            allow_commercially_sensitive: true,
            ..Default::default()
        },
    )
    .expect("we shouldnt have duplicate columns!");

    let commercially_sensitive_transformer =
        transformer_for_column(COMMERCIALLY_SENSITIVE_COLUMN_NAME, &parsed);
    let pii_column_transformer = transformer_for_column(PII_COLUMN_NAME, &parsed);

    assert_eq!(
        commercially_sensitive_transformer.name,
        TransformerType::Identity
    );
    assert_eq!(commercially_sensitive_transformer.args, None);

    assert_eq!(pii_column_transformer.name, TransformerType::Scramble);
    assert_eq!(pii_column_transformer.args, None);
}

#[test]
fn from_strategies_in_file_modifies_transformer_for_scramble_if_flag_provided() {
    let strategies = vec![StrategyInFile {
        table_name: TABLE_NAME.to_string(),
        description: "description".to_string(),
        truncate: false,
        columns: vec![column_in_file(
            DataCategory::General,
            SCRAMBLED_COLUMN_NAME,
            TransformerType::Scramble,
        )],
    }];

    let parsed = Strategies::from_strategies_in_file(
        strategies,
        &TransformerOverrides {
            scramble_blank: true,
            ..Default::default()
        },
    )
    .expect("we shouldnt have duplicate columns!");

    let scramble_transformer = transformer_for_column(SCRAMBLED_COLUMN_NAME, &parsed);

    assert_eq!(scramble_transformer.name, TransformerType::ScrambleBlank);
}

#[test]
fn from_strategies_in_file_can_combine_override_flags() {
    let strategies = vec![StrategyInFile {
        table_name: TABLE_NAME.to_string(),
        description: "description".to_string(),
        truncate: false,
        columns: vec![
            column_in_file(
                DataCategory::PotentialPii,
                PII_COLUMN_NAME,
                TransformerType::Scramble,
            ),
            column_in_file(
                DataCategory::CommerciallySensitive,
                COMMERCIALLY_SENSITIVE_COLUMN_NAME,
                TransformerType::Scramble,
            ),
        ],
    }];

    let parsed = Strategies::from_strategies_in_file(
        strategies,
        &TransformerOverrides {
            allow_potential_pii: true,
            allow_commercially_sensitive: true,
            scramble_blank: true,
        },
    )
    .expect("we shouldnt have duplicate columns!");

    // Both of these override scramble_blank

    let commercially_sensitive_transformer =
        transformer_for_column(COMMERCIALLY_SENSITIVE_COLUMN_NAME, &parsed);
    let pii_column_transformer = transformer_for_column(PII_COLUMN_NAME, &parsed);

    assert_eq!(
        commercially_sensitive_transformer.name,
        TransformerType::Identity
    );
    assert_eq!(pii_column_transformer.name, TransformerType::Identity);
}

#[test]
fn category_override_wins_over_scramble_blank() {
    let overrides = TransformerOverrides {
        allow_potential_pii: true,
        allow_commercially_sensitive: false,
        scramble_blank: true,
    };
    let declared = Transformer {
        name: TransformerType::Scramble,
        args: None,
    };
    let r = apply_transformer_overrides(DataCategory::PotentialPii, &overrides, declared);
    assert_eq!(r.name, TransformerType::Identity);
    assert_eq!(r.args, None);
}

#[test]
fn applying_overrides_twice_changes_nothing() {
    let overrides = TransformerOverrides {
        allow_potential_pii: false,
        allow_commercially_sensitive: true,
        scramble_blank: true,
    };
    let cases = [
        (DataCategory::General, TransformerType::Scramble),
        (DataCategory::Pii, TransformerType::Scramble),
        (DataCategory::CommerciallySensitive, TransformerType::FakeNationalInsuranceNumber),
        (DataCategory::PotentialPii, TransformerType::Identity),
    ];
    for (category, kind) in cases {
        let once = apply_transformer_overrides(
            category,
            &overrides,
            Transformer { name: kind, args: None },
        );
        let twice = apply_transformer_overrides(category, &overrides, once.clone());
        assert_eq!(once, twice);
    }
}

#[test]
fn overrides_keep_other_transformers_and_their_args() {
    let args = Some(vec![("format".to_string(), "short".to_string())]);
    let declared = Transformer {
        name: TransformerType::FakeNationalInsuranceNumber,
        args: args.clone(),
    };
    let r = apply_transformer_overrides(DataCategory::Pii, &TransformerOverrides::none(), declared.clone());
    assert_eq!(r, declared);
}

#[test]
fn duplicate_tables_and_columns_are_batched_and_nothing_else() {
    let strategies = vec![
        strategy_in_file("t", false, vec![]),
        strategy_in_file("t", false, vec![]),
        strategy_in_file(
            "daps",
            false,
            vec![
                column_in_file(DataCategory::Pii, "column1", TransformerType::Scramble),
                column_in_file(DataCategory::Pii, "column1", TransformerType::Scramble),
            ],
        ),
    ];
    let error = Strategies::from_strategies_in_file(strategies, &TransformerOverrides::none())
        .unwrap_err();
    assert_eq!(error.duplicate_tables, vec!["t".to_string()]);
    assert_eq!(error.duplicate_columns, vec![create_simple_column("daps", "column1")]);
    assert!(error.unanonymised_pii.is_empty());
    assert!(error.unknown_data_categories.is_empty());
    assert!(error.error_transformer_types.is_empty());
}

#[test]
fn demoted_potential_pii_is_not_reported() {
    let strategies = vec![strategy_in_file(
        "people",
        false,
        vec![column_in_file(DataCategory::PotentialPii, "nickname", TransformerType::Identity)],
    )];
    let overrides = TransformerOverrides {
        allow_potential_pii: true,
        ..Default::default()
    };
    let parsed = Strategies::from_strategies_in_file(strategies, &overrides).unwrap();
    let t = parsed.transformer_for_column("people", "nickname").unwrap();
    assert_eq!(t.name, TransformerType::Identity);
}

#[test]
fn all_error_kinds_are_reported_in_one_batch() {
    let strategies = vec![
        strategy_in_file(
            "a",
            false,
            vec![
                column_in_file(DataCategory::Pii, "x", TransformerType::Identity),
                column_in_file(DataCategory::Unknown, "y", TransformerType::Scramble),
                column_in_file(DataCategory::General, "z", TransformerType::Error),
            ],
        ),
        strategy_in_file("a", true, vec![]),
    ];
    let error = Strategies::from_strategies_in_file(strategies, &TransformerOverrides::none())
        .unwrap_err();
    assert_eq!(error.unanonymised_pii, vec![create_simple_column("a", "x")]);
    assert_eq!(error.unknown_data_categories, vec![create_simple_column("a", "y")]);
    assert_eq!(error.error_transformer_types, vec![create_simple_column("a", "z")]);
    assert!(error.duplicate_columns.is_empty());
    assert_eq!(error.duplicate_tables, vec!["a".to_string()]);
}

#[test]
fn truncated_tables_compile_to_truncate_and_leave_schema_comparison() {
    let strategies = vec![
        strategy_in_file(
            "people",
            false,
            vec![column_in_file(DataCategory::General, "id", TransformerType::Identity)],
        ),
        strategy_in_file(
            "audit",
            true,
            vec![column_in_file(DataCategory::General, "entry", TransformerType::Identity)],
        ),
    ];
    let parsed = Strategies::from_strategies_in_file(strategies, &TransformerOverrides::none())
        .unwrap();
    assert_eq!(parsed.for_table("audit"), Some(&TableStrategy::Truncate));
    assert_eq!(parsed.transformer_for_column("audit", "entry"), None);
    assert!(parsed.for_table("missing").is_none());
    let live = vec![create_simple_column("people", "id")];
    assert!(parsed.validate_against_db(live).is_ok());
}

#[test]
fn empty_document_compiles_to_empty_policy() {
    let parsed = Strategies::from_strategies_in_file(vec![], &TransformerOverrides::none()).unwrap();
    assert_eq!(parsed, Strategies::new());
    assert!(parsed.validate_against_db(vec![]).is_ok());
}

#[test]
fn schema_diff_is_sorted_and_deduplicated() {
    let strategies = create_strategy(
        "b",
        vec![create_column("z"), create_column("a"), create_column("m")],
    );
    let live = vec![
        create_simple_column("c", "x"),
        create_simple_column("a", "y"),
        create_simple_column("c", "x"),
        create_simple_column("b", "m"),
        create_simple_column("a", "b"),
    ];
    let error = strategies.validate_against_db(live).unwrap_err();
    assert_eq!(
        error.missing_from_strategy_file,
        vec![
            create_simple_column("a", "b"),
            create_simple_column("a", "y"),
            create_simple_column("c", "x"),
        ]
    );
    assert_eq!(
        error.missing_from_db,
        vec![create_simple_column("b", "a"), create_simple_column("b", "z")]
    );
}

#[test]
fn insert_hands_back_previous_policy() {
    let mut strategies = Strategies::new();
    assert_eq!(strategies.insert("t".to_string(), vec![create_column("a")]), None);
    let previous = strategies.insert("t".to_string(), vec![create_column("b")]);
    assert_eq!(previous, Some(TableStrategy::Columns(vec![create_column("a")])));
    assert!(strategies.transformer_for_column("t", "a").is_none());
    assert_eq!(
        strategies.transformer_for_column("t", "b").unwrap().name,
        TransformerType::Identity
    );
}

#[test]
fn column_info_builder_sets_every_field() {
    let built = ColumnInfo::builder()
        .with_name("email")
        .with_data_category(DataCategory::Pii)
        .with_transformer(TransformerType::ScrambleBlank, None)
        .build();
    assert_eq!(
        built,
        ColumnInfo {
            data_category: DataCategory::Pii,
            name: "email".to_string(),
            transformer: Transformer {
                name: TransformerType::ScrambleBlank,
                args: None,
            },
        }
    );
}
