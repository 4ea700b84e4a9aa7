use sqlschema::constructs::components::{
    ColumnDefinition, DataInstance, DataInstanceRaw, DataType, DataTypeRaw, TableDefinition,
};

fn column(name: &str, primary_key: bool) -> ColumnDefinition {
    ColumnDefinition {
        name: name.to_string(),
        data_type: DataType {
            data_type: DataTypeRaw::UInt64,
            is_nullable: false,
        },
        primary_key,
    }
}

fn table(name: &str, columns: Vec<ColumnDefinition>) -> TableDefinition {
    TableDefinition {
        name: name.to_string(),
        columns,
        primary_key_index: 0,
    }
}

#[test]
fn type_names_are_read_in_any_case() {
    assert_eq!(DataTypeRaw::from_str("uint64"), Ok(DataTypeRaw::UInt64));
    assert_eq!(DataTypeRaw::from_str("UINT64"), Ok(DataTypeRaw::UInt64));
    assert_eq!(DataTypeRaw::from_str("UInt64"), Ok(DataTypeRaw::UInt64));
    assert_eq!("uInT64".parse::<DataTypeRaw>(), Ok(DataTypeRaw::UInt64));
}

#[test]
fn every_type_has_its_name() {
    assert_eq!(DataTypeRaw::from_str("uint8"), Ok(DataTypeRaw::UInt8));
    assert_eq!(DataTypeRaw::from_str("uint16"), Ok(DataTypeRaw::UInt16));
    assert_eq!(DataTypeRaw::from_str("uint32"), Ok(DataTypeRaw::UInt32));
    assert_eq!(DataTypeRaw::from_str("uint64"), Ok(DataTypeRaw::UInt64));
    assert_eq!(DataTypeRaw::from_str("uint128"), Ok(DataTypeRaw::UInt128));
    assert_eq!(DataTypeRaw::from_str("bool"), Ok(DataTypeRaw::Bool));
    assert_eq!(DataTypeRaw::from_str("timestamp"), Ok(DataTypeRaw::Timestamp));
    assert_eq!(DataTypeRaw::from_str("uuid"), Ok(DataTypeRaw::Uuid));
    assert_eq!(DataTypeRaw::from_str("string"), Ok(DataTypeRaw::String));
}

#[test]
fn unknown_type_name_is_quoted_as_given() {
    assert_eq!(
        DataTypeRaw::from_str("Float64"),
        Err("`Float64` does not refer to a supported type".to_string())
    );
    assert_eq!(
        DataTypeRaw::from_str(""),
        Err("`` does not refer to a supported type".to_string())
    );
    assert_eq!(
        DataTypeRaw::from_str(" uint8"),
        Err("` uint8` does not refer to a supported type".to_string())
    );
    assert_eq!(
        "uint".parse::<DataTypeRaw>(),
        Err("`uint` does not refer to a supported type".to_string())
    );
}

#[test]
fn only_ascii_letters_are_folded() {
    assert_eq!(
        DataTypeRaw::from_str("U\u{130}NT8"),
        Err("`U\u{130}NT8` does not refer to a supported type".to_string())
    );
}

#[test]
fn values_carry_their_kind() {
    assert_eq!(
        DataInstance::Direct(DataInstanceRaw::UInt8(7)),
        DataInstance::Direct(DataInstanceRaw::UInt8(7))
    );
    assert_ne!(
        DataInstance::Direct(DataInstanceRaw::UInt8(7)),
        DataInstance::Nullable(DataInstanceRaw::UInt8(7))
    );
    assert_ne!(
        DataInstance::Nullable(DataInstanceRaw::String("a".to_string())),
        DataInstance::Null
    );
    assert_ne!(
        DataInstance::Direct(DataInstanceRaw::Timestamp(-1)),
        DataInstance::Direct(DataInstanceRaw::Uuid(1))
    );
}

#[test]
fn column_must_have_a_name() {
    assert_eq!(column("id", false).validate(), Ok(()));
    assert_eq!(
        column("", true).validate(),
        Err("A column must have a name".to_string())
    );
}

#[test]
fn new_finds_the_primary_key() {
    let table = TableDefinition::new(
        "t".to_string(),
        vec![column("a", false), column("b", true), column("c", false)],
    );
    assert_eq!(table.name, "t");
    assert_eq!(table.primary_key_index, 1);
    assert_eq!(
        table.columns,
        vec![column("a", false), column("b", true), column("c", false)]
    );
    assert_eq!(table.validate(), Ok(()));
    let table = TableDefinition::new("t".to_string(), vec![column("a", true)]);
    assert_eq!(table.primary_key_index, 0);
    assert_eq!(table.primary_key(), &column("a", true));
}

#[test]
fn table_must_have_a_name() {
    assert_eq!(
        table("", vec![]).validate(),
        Err("A table must have a name".to_string())
    );
}

#[test]
fn table_must_have_a_column() {
    assert_eq!(
        table("t", vec![]).validate(),
        Err("A table must have at least one column".to_string())
    );
}

#[test]
fn table_with_one_primary_key_is_accepted() {
    assert_eq!(table("t", vec![column("a", true)]).validate(), Ok(()));
    assert_eq!(
        table("t", vec![column("a", false), column("b", false), column("c", true)]).validate(),
        Ok(())
    );
}

#[test]
fn table_with_no_primary_key_is_refused() {
    assert_eq!(
        table("t", vec![column("a", false), column("b", false)]).validate(),
        Err("A table must have exactly 1 PRIMARY KEY column, not 0".to_string())
    );
}

#[test]
fn table_with_two_primary_keys_is_refused() {
    assert_eq!(
        table("t", vec![column("a", true), column("b", false), column("c", true)]).validate(),
        Err("A table must have exactly 1 PRIMARY KEY column, not 2".to_string())
    );
}

#[test]
fn table_with_many_primary_keys_names_their_number() {
    let columns: Vec<ColumnDefinition> = (0..12)
        .map(|index| column(&format!("c{}", index), true))
        .collect();
    assert_eq!(
        table("t", columns).validate(),
        Err("A table must have exactly 1 PRIMARY KEY column, not 12".to_string())
    );
}

#[test]
fn duplicate_column_name_is_reported_with_its_place() {
    assert_eq!(
        table("t", vec![column("a", true), column("b", false), column("a", false)]).validate(),
        Err(
            "Problem at column 3: There is more than one column with name `a` in table definition"
                .to_string()
        )
    );
}

#[test]
fn first_duplicate_wins() {
    assert_eq!(
        table(
            "t",
            vec![
                column("a", true),
                column("b", false),
                column("b", false),
                column("a", false)
            ]
        )
        .validate(),
        Err(
            "Problem at column 3: There is more than one column with name `b` in table definition"
                .to_string()
        )
    );
}

#[test]
fn column_names_differ_by_case() {
    assert_eq!(
        table("t", vec![column("a", true), column("A", false)]).validate(),
        Ok(())
    );
}

#[test]
fn unnamed_column_is_reported_with_its_place() {
    assert_eq!(
        table("t", vec![column("a", true), column("", false)]).validate(),
        Err("Problem at column 2: A column must have a name".to_string())
    );
}

#[test]
fn second_unnamed_column_is_a_duplicate() {
    assert_eq!(
        table("t", vec![column("", true), column("", false)]).validate(),
        Err("Problem at column 1: A column must have a name".to_string())
    );
    assert_eq!(
        table("t", vec![column("a", true), column("a", false), column("", false)]).validate(),
        Err(
            "Problem at column 2: There is more than one column with name `a` in table definition"
                .to_string()
        )
    );
}

#[test]
fn rules_are_checked_in_order() {
    // no name comes before no column
    assert_eq!(
        table("", vec![column("a", false)]).validate(),
        Err("A table must have a name".to_string())
    );
    // a column's problem comes before the number of primary keys
    assert_eq!(
        table("t", vec![column("a", false), column("a", false)]).validate(),
        Err(
            "Problem at column 2: There is more than one column with name `a` in table definition"
                .to_string()
        )
    );
}

#[test]
fn validated_builds_the_table_or_names_the_problem() {
    let built = TableDefinition::validated(
        "users".to_string(),
        vec![column("id", false), column("key", true)],
    )
    .unwrap();
    assert_eq!(
        built,
        TableDefinition {
            name: "users".to_string(),
            columns: vec![column("id", false), column("key", true)],
            primary_key_index: 1,
        }
    );
    assert_eq!(
        TableDefinition::validated("users".to_string(), vec![column("id", false)]),
        Err("A table must have exactly 1 PRIMARY KEY column, not 0".to_string())
    );
    assert_eq!(
        TableDefinition::validated("".to_string(), vec![column("id", true)]),
        Err("A table must have a name".to_string())
    );
}

#[test]
fn primary_key_of_a_validated_table() {
    let table = TableDefinition::validated(
        "users".to_string(),
        vec![column("id", false), column("key", true), column("name", false)],
    )
    .unwrap();
    assert_eq!(table.primary_key(), &column("key", true));
}

#[test]
fn types_are_written_by_their_names() {
    assert_eq!(DataTypeRaw::UInt8.as_str(), "UInt8");
    assert_eq!(DataTypeRaw::UInt16.as_str(), "UInt16");
    assert_eq!(DataTypeRaw::UInt32.as_str(), "UInt32");
    assert_eq!(DataTypeRaw::UInt64.as_str(), "UInt64");
    assert_eq!(DataTypeRaw::UInt128.as_str(), "UInt128");
    assert_eq!(DataTypeRaw::Bool.as_str(), "Bool");
    assert_eq!(DataTypeRaw::Timestamp.as_str(), "Timestamp");
    assert_eq!(DataTypeRaw::Uuid.as_str(), "Uuid");
    assert_eq!(DataTypeRaw::String.as_str(), "String");
}

#[test]
fn written_types_are_read_back() {
    for data_type in [
        DataTypeRaw::UInt8,
        DataTypeRaw::UInt16,
        DataTypeRaw::UInt32,
        DataTypeRaw::UInt64,
        DataTypeRaw::UInt128,
        DataTypeRaw::Bool,
        DataTypeRaw::Timestamp,
        DataTypeRaw::Uuid,
        DataTypeRaw::String,
    ] {
        assert_eq!(DataTypeRaw::from_str(data_type.as_str()), Ok(data_type));
    }
}
