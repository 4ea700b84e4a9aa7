//! Scalar types and values, and the definitions of columns and tables with
//! the rules that a table must keep.

use crate::text::{chars_of, decimal, folded, folds_to, push_chars, push_decimal};
use vstd::prelude::*;

verus! {

/// The scalar types a column can hold.
#[derive(Debug, PartialEq, Eq, Clone, Copy, Structural)]
pub enum DataTypeRaw {
    UInt8,
    UInt16,
    UInt32,
    UInt64,
    UInt128,
    Bool,
    Timestamp,
    Uuid,
    String,
}

/// How a type is written.
pub open spec fn type_text(data_type: DataTypeRaw) -> Seq<char> {
    match data_type {
        DataTypeRaw::UInt8 => "UInt8"@,
        DataTypeRaw::UInt16 => "UInt16"@,
        DataTypeRaw::UInt32 => "UInt32"@,
        DataTypeRaw::UInt64 => "UInt64"@,
        DataTypeRaw::UInt128 => "UInt128"@,
        DataTypeRaw::Bool => "Bool"@,
        DataTypeRaw::Timestamp => "Timestamp"@,
        DataTypeRaw::Uuid => "Uuid"@,
        DataTypeRaw::String => "String"@,
    }
}

/// The type named by a word, whatever the case of its ASCII letters.
pub open spec fn type_named(word: Seq<char>) -> Option<DataTypeRaw> {
    let low = folded(word);
    if low == "uint8"@ {
        Some(DataTypeRaw::UInt8)
    } else if low == "uint16"@ {
        Some(DataTypeRaw::UInt16)
    } else if low == "uint32"@ {
        Some(DataTypeRaw::UInt32)
    } else if low == "uint64"@ {
        Some(DataTypeRaw::UInt64)
    } else if low == "uint128"@ {
        Some(DataTypeRaw::UInt128)
    } else if low == "bool"@ {
        Some(DataTypeRaw::Bool)
    } else if low == "timestamp"@ {
        Some(DataTypeRaw::Timestamp)
    } else if low == "uuid"@ {
        Some(DataTypeRaw::Uuid)
    } else if low == "string"@ {
        Some(DataTypeRaw::String)
    } else {
        None
    }
}

/// Two words that differ in the case of their ASCII letters only name the
/// same type, or both name none.
pub proof fn lemma_type_name_ignores_case(first: Seq<char>, second: Seq<char>)
    requires
        folded(first) == folded(second),
    ensures
        type_named(first) == type_named(second),
{
}

/// What is reported for a word that names no type.
pub open spec fn unsupported_type_message(word: Seq<char>) -> Seq<char> {
    "`"@ + word + "` does not refer to a supported type"@
}

impl DataTypeRaw {
    /// The type as it is written.
    pub fn as_str(&self) -> (text: &'static str)
        ensures
            text@ == type_text(*self),
    {
        match self {
            DataTypeRaw::UInt8 => "UInt8",
            DataTypeRaw::UInt16 => "UInt16",
            DataTypeRaw::UInt32 => "UInt32",
            DataTypeRaw::UInt64 => "UInt64",
            DataTypeRaw::UInt128 => "UInt128",
            DataTypeRaw::Bool => "Bool",
            DataTypeRaw::Timestamp => "Timestamp",
            DataTypeRaw::Uuid => "Uuid",
            DataTypeRaw::String => "String",
        }
    }

    /// The type named by the characters of `word`, if any.
    pub fn named(word: &[char]) -> (found: Option<DataTypeRaw>)
        ensures
            found == type_named(word@),
    {
        if folds_to(word, "uint8") {
            Some(DataTypeRaw::UInt8)
        } else if folds_to(word, "uint16") {
            Some(DataTypeRaw::UInt16)
        } else if folds_to(word, "uint32") {
            Some(DataTypeRaw::UInt32)
        } else if folds_to(word, "uint64") {
            Some(DataTypeRaw::UInt64)
        } else if folds_to(word, "uint128") {
            Some(DataTypeRaw::UInt128)
        } else if folds_to(word, "bool") {
            Some(DataTypeRaw::Bool)
        } else if folds_to(word, "timestamp") {
            Some(DataTypeRaw::Timestamp)
        } else if folds_to(word, "uuid") {
            Some(DataTypeRaw::Uuid)
        } else if folds_to(word, "string") {
            Some(DataTypeRaw::String)
        } else {
            None
        }
    }

    /// Reads a type name, whatever the case of its letters.
    pub fn from_str(candidate: &str) -> (res: Result<DataTypeRaw, std::string::String>)
        ensures
            match res {
                Ok(data_type) => type_named(candidate@) == Some(data_type),
                Err(message) => type_named(candidate@) is None && message@
                    == unsupported_type_message(candidate@),
            },
    {
        let word = chars_of(candidate);
        match DataTypeRaw::named(word.as_slice()) {
            Some(data_type) => Ok(data_type),
            None => {
                let mut message = std::string::String::new();
                message.append("`");
                push_chars(&mut message, word.as_slice());
                message.append("` does not refer to a supported type");
                Err(message)
            },
        }
    }
}

impl std::str::FromStr for DataTypeRaw {
    type Err = std::string::String;

    fn from_str(candidate: &str) -> (res: Result<DataTypeRaw, std::string::String>)
        ensures
            match res {
                Ok(data_type) => type_named(candidate@) == Some(data_type),
                Err(message) => type_named(candidate@) is None && message@
                    == unsupported_type_message(candidate@),
            },
    {
        DataTypeRaw::from_str(candidate)
    }
}

/// A scalar type as written in a column definition: bare, or wrapped in
/// `NULLABLE(..)`.
#[derive(Debug, PartialEq, Eq, Clone, Copy, Structural)]
pub struct DataType {
    pub data_type: DataTypeRaw,
    pub is_nullable: bool,
}

impl View for DataType {
    type V = DataType;

    open spec fn view(&self) -> DataType {
        *self
    }
}

impl DeepView for DataType {
    type V = DataType;

    open spec fn deep_view(&self) -> DataType {
        *self
    }
}

/// A value of one of the scalar types.
#[derive(Debug, PartialEq, Eq)]
pub enum DataInstanceRaw {
    UInt8(u8),
    UInt16(u16),
    UInt32(u32),
    UInt64(u64),
    UInt128(u128),
    Bool(bool),
    Timestamp(i64),
    Uuid(u128),
    String(std::string::String),
}

/// What a column holds in one row: a value of a column that is not nullable,
/// a value of a nullable column, or the absence of one.
#[derive(Debug, PartialEq, Eq)]
pub enum DataInstance {
    Direct(DataInstanceRaw),
    Nullable(DataInstanceRaw),
    Null,
}

/// A column of a table: its name, its type, and whether it is the primary key.
#[derive(Debug, PartialEq, Eq)]
pub struct ColumnDefinition {
    pub name: std::string::String,
    pub data_type: DataType,
    pub primary_key: bool,
}

/// A column definition as a mathematical value.
pub struct ColumnDefinitionView {
    pub name: Seq<char>,
    pub data_type: DataType,
    pub primary_key: bool,
}

impl View for ColumnDefinition {
    type V = ColumnDefinitionView;

    open spec fn view(&self) -> ColumnDefinitionView {
        ColumnDefinitionView {
            name: self.name@,
            data_type: self.data_type,
            primary_key: self.primary_key,
        }
    }
}

impl DeepView for ColumnDefinition {
    type V = ColumnDefinitionView;

    open spec fn deep_view(&self) -> ColumnDefinitionView {
        self@
    }
}

/// A table: its name, its columns in declared order, and where among them the
/// primary key stands.
#[derive(Debug, PartialEq, Eq)]
pub struct TableDefinition {
    pub name: std::string::String,
    pub columns: Vec<ColumnDefinition>,
    pub primary_key_index: usize,
}

/// A table definition as a mathematical value.
pub struct TableDefinitionView {
    pub name: Seq<char>,
    pub columns: Seq<ColumnDefinitionView>,
    pub primary_key_index: nat,
}

impl View for TableDefinition {
    type V = TableDefinitionView;

    open spec fn view(&self) -> TableDefinitionView {
        TableDefinitionView {
            name: self.name@,
            columns: self.columns.deep_view(),
            primary_key_index: self.primary_key_index as nat,
        }
    }
}

impl DeepView for TableDefinition {
    type V = TableDefinitionView;

    open spec fn deep_view(&self) -> TableDefinitionView {
        self@
    }
}

/// What is wrong with a column taken alone, if anything.
pub open spec fn column_violation(column: ColumnDefinitionView) -> Option<Seq<char>> {
    if column.name.len() == 0 {
        Some("A column must have a name"@)
    } else {
        None
    }
}

/// Whether an earlier column has the name of column `i`.
pub open spec fn named_before(columns: Seq<ColumnDefinitionView>, i: int) -> bool {
    exists|j: int| 0 <= j < i && #[trigger] columns[j].name == columns[i].name
}

/// A complaint about one column, with the column's position counted from 1.
pub open spec fn problem_at(position: nat, problem: Seq<char>) -> Seq<char> {
    "Problem at column "@ + decimal(position) + ": "@ + problem
}

/// The complaint about a name that an earlier column has already.
pub open spec fn duplicate_name_problem(name: Seq<char>) -> Seq<char> {
    "There is more than one column with name `"@ + name + "` in table definition"@
}

/// The complaint about a table whose number of primary keys is not one.
pub open spec fn primary_key_count_problem(count: nat) -> Seq<char> {
    "A table must have exactly 1 PRIMARY KEY column, not "@ + decimal(count)
}

/// What is wrong with column `i` among the columns before it, if anything:
/// a name used before, else what is wrong with the column alone.
pub open spec fn column_problem(columns: Seq<ColumnDefinitionView>, i: int) -> Option<Seq<char>> {
    if named_before(columns, i) {
        Some(problem_at((i + 1) as nat, duplicate_name_problem(columns[i].name)))
    } else {
        match column_violation(columns[i]) {
            Some(problem) => Some(problem_at((i + 1) as nat, problem)),
            None => None,
        }
    }
}

/// The first complaint among the first `count` columns, in declared order.
pub open spec fn columns_violation(columns: Seq<ColumnDefinitionView>, count: int) -> Option<
    Seq<char>,
>
    decreases count,
{
    if count <= 0 {
        None
    } else {
        match columns_violation(columns, count - 1) {
            Some(problem) => Some(problem),
            None => column_problem(columns, count - 1),
        }
    }
}

/// A complaint about a column stands for every longer run of columns, while
/// no earlier column gave one.
pub proof fn lemma_first_complaint_stands(
    columns: Seq<ColumnDefinitionView>,
    i: int,
    count: int,
)
    requires
        0 <= i < count,
        columns_violation(columns, i) is None,
        column_problem(columns, i) is Some,
    ensures
        columns_violation(columns, count) == column_problem(columns, i),
    decreases count,
{
    if count > i + 1 {
        lemma_first_complaint_stands(columns, i, count - 1);
    }
}

/// How many of the columns are marked as primary key.
pub open spec fn primary_key_count(columns: Seq<ColumnDefinitionView>) -> nat
    decreases columns.len(),
{
    if columns.len() == 0 {
        0
    } else {
        primary_key_count(columns.drop_last()) + if columns.last().primary_key {
            1nat
        } else {
            0nat
        }
    }
}

/// The first rule that a table of this name and these columns breaks, if any.
/// The rules, in the order in which they are checked: the table has a name;
/// it has a column; each column in turn has a name that no earlier column has,
/// and is sound by itself; exactly one column is the primary key.
pub open spec fn table_violation(name: Seq<char>, columns: Seq<ColumnDefinitionView>) -> Option<
    Seq<char>,
> {
    if name.len() == 0 {
        Some("A table must have a name"@)
    } else if columns.len() == 0 {
        Some("A table must have at least one column"@)
    } else if columns_violation(columns, columns.len() as int) is Some {
        columns_violation(columns, columns.len() as int)
    } else if primary_key_count(columns) != 1 {
        Some(primary_key_count_problem(primary_key_count(columns)))
    } else {
        None
    }
}

/// Where columns are counted as primary keys, one of them is marked as one.
pub proof fn lemma_counted_primary_key_exists(columns: Seq<ColumnDefinitionView>)
    requires
        primary_key_count(columns) > 0,
    ensures
        exists|i: int| 0 <= i < columns.len() && (#[trigger] columns[i]).primary_key,
    decreases columns.len(),
{
    if columns.len() > 0 && !columns.last().primary_key {
        lemma_counted_primary_key_exists(columns.drop_last());
    }
}

/// Whether `index` is where the first primary key stands.
pub open spec fn is_first_primary_key(columns: Seq<ColumnDefinitionView>, index: int) -> bool {
    &&& 0 <= index < columns.len()
    &&& columns[index].primary_key
    &&& forall|j: int| 0 <= j < index ==> !(#[trigger] columns[j]).primary_key
}

/// No complaint among the first `count` columns means no complaint about
/// any one of them.
pub proof fn lemma_no_complaint_about_any(columns: Seq<ColumnDefinitionView>, count: int)
    requires
        columns_violation(columns, count) is None,
    ensures
        forall|i: int| 0 <= i < count ==> (#[trigger] column_problem(columns, i)) is None,
    decreases count,
{
    if count > 0 {
        lemma_no_complaint_about_any(columns, count - 1);
    }
}

/// A column that is marked as primary key is counted.
pub proof fn lemma_primary_key_is_counted(columns: Seq<ColumnDefinitionView>, i: int)
    requires
        0 <= i < columns.len(),
        columns[i].primary_key,
    ensures
        primary_key_count(columns) >= 1,
    decreases columns.len(),
{
    if i < columns.len() - 1 {
        lemma_primary_key_is_counted(columns.drop_last(), i);
    }
}

/// Two columns that are marked as primary key are both counted.
pub proof fn lemma_primary_keys_are_counted(columns: Seq<ColumnDefinitionView>, i: int, j: int)
    requires
        0 <= i < j < columns.len(),
        columns[i].primary_key,
        columns[j].primary_key,
    ensures
        primary_key_count(columns) >= 2,
    decreases columns.len(),
{
    if j < columns.len() - 1 {
        lemma_primary_keys_are_counted(columns.drop_last(), i, j);
    } else {
        lemma_primary_key_is_counted(columns.drop_last(), i);
    }
}

/// What a table must be: it has a name and a column, every column has a
/// name, no two columns have the same name, and one column and no other is
/// the primary key.
pub open spec fn table_is_sound(name: Seq<char>, columns: Seq<ColumnDefinitionView>) -> bool {
    &&& name.len() > 0
    &&& columns.len() > 0
    &&& forall|i: int| 0 <= i < columns.len() ==> (#[trigger] columns[i]).name.len() > 0
    &&& forall|i: int, j: int|
        0 <= i < j < columns.len() ==> (#[trigger] columns[i]).name != (#[trigger] columns[j]).name
    &&& exists|k: int| is_only_primary_key(columns, k)
}

/// Whether column `k` is the primary key, and no other column is.
pub open spec fn is_only_primary_key(columns: Seq<ColumnDefinitionView>, k: int) -> bool {
    &&& 0 <= k < columns.len()
    &&& forall|i: int| 0 <= i < columns.len() ==> ((#[trigger] columns[i]).primary_key <==> i == k)
}

/// Columns of which none is marked as primary key count none.
pub proof fn lemma_no_primary_key_counted(columns: Seq<ColumnDefinitionView>)
    requires
        forall|i: int| 0 <= i < columns.len() ==> !(#[trigger] columns[i]).primary_key,
    ensures
        primary_key_count(columns) == 0,
    decreases columns.len(),
{
    if columns.len() > 0 {
        lemma_no_primary_key_counted(columns.drop_last());
    }
}

/// Columns of which one and no other is marked as primary key count one.
pub proof fn lemma_only_primary_key_counted(columns: Seq<ColumnDefinitionView>, k: int)
    requires
        is_only_primary_key(columns, k),
    ensures
        primary_key_count(columns) == 1,
    decreases columns.len(),
{
    if k == columns.len() - 1 {
        lemma_no_primary_key_counted(columns.drop_last());
    } else {
        lemma_only_primary_key_counted(columns.drop_last(), k);
    }
}

/// A name and columns break no rule exactly where they are what a table
/// must be. Then the one primary key is the first.
pub proof fn lemma_sound_without_violation(name: Seq<char>, columns: Seq<ColumnDefinitionView>)
    ensures
        table_violation(name, columns) is None <==> table_is_sound(name, columns),
        table_is_sound(name, columns) ==> is_only_primary_key(
            columns,
            first_primary_key(columns),
        ),
{
    if table_violation(name, columns) is None {
        lemma_no_complaint_about_any(columns, columns.len() as int);
        assert forall|i: int| 0 <= i < columns.len() implies (#[trigger] columns[i]).name.len()
            > 0 by {
            assert(column_problem(columns, i) is None);
        }
        assert forall|i: int, j: int| 0 <= i < j < columns.len() implies (
        #[trigger] columns[i]).name != (#[trigger] columns[j]).name by {
            assert(column_problem(columns, j) is None);
        }
        lemma_counted_primary_key_exists(columns);
        let some = choose|i: int| 0 <= i < columns.len() && (#[trigger] columns[i]).primary_key;
        assert forall|i: int| 0 <= i < columns.len() implies ((#[trigger] columns[i]).primary_key
            <==> i == some) by {
            if columns[i].primary_key {
                if i < some {
                    lemma_primary_keys_are_counted(columns, i, some);
                } else if some < i {
                    lemma_primary_keys_are_counted(columns, some, i);
                }
            }
        }
        assert(is_only_primary_key(columns, some));
    }
    if table_is_sound(name, columns) {
        let k = choose|k: int| is_only_primary_key(columns, k);
        lemma_no_complaint_before(columns, columns.len() as int);
        lemma_only_primary_key_counted(columns, k);
        lemma_first_primary_key_is_one(columns, k);
    }
}

/// A table with a name whose column `i` has the name of an earlier column,
/// while no complaint was made about the columns before it, is refused for
/// that: the message gives the place of the column, counted from 1, and
/// the name.
pub proof fn lemma_duplicate_name_is_reported(
    name: Seq<char>,
    columns: Seq<ColumnDefinitionView>,
    i: int,
)
    requires
        name.len() > 0,
        0 <= i < columns.len(),
        named_before(columns, i),
        forall|k: int| 0 <= k < i ==> (#[trigger] column_problem(columns, k)) is None,
    ensures
        table_violation(name, columns) == Some(
            problem_at((i + 1) as nat, duplicate_name_problem(columns[i].name)),
        ),
{
    lemma_no_complaint_before(columns, i);
    lemma_first_complaint_stands(columns, i, columns.len() as int);
}

/// Where no column before `count` gives a complaint, there is no complaint
/// among the first `count` columns.
pub proof fn lemma_no_complaint_before(columns: Seq<ColumnDefinitionView>, count: int)
    requires
        forall|k: int| 0 <= k < count ==> (#[trigger] column_problem(columns, k)) is None,
    ensures
        columns_violation(columns, count) is None,
    decreases count,
{
    if count > 0 {
        lemma_no_complaint_before(columns, count - 1);
    }
}

/// A table with a name and columns, none of which gives a complaint, is
/// accepted where exactly one column is the primary key, and refused with
/// the number of primary keys where that number is another.
pub proof fn lemma_primary_key_count_decides(name: Seq<char>, columns: Seq<ColumnDefinitionView>)
    requires
        name.len() > 0,
        columns.len() > 0,
        forall|k: int| 0 <= k < columns.len() ==> (#[trigger] column_problem(columns, k)) is None,
    ensures
        primary_key_count(columns) == 1 ==> table_violation(name, columns) is None,
        primary_key_count(columns) != 1 ==> table_violation(name, columns) == Some(
            primary_key_count_problem(primary_key_count(columns)),
        ),
{
    lemma_no_complaint_before(columns, columns.len() as int);
}

/// Where the first primary key stands, if a column is marked as one.
pub open spec fn first_primary_key(columns: Seq<ColumnDefinitionView>) -> int {
    choose|index: int| is_first_primary_key(columns, index)
}

/// The first primary key stands in one place only.
pub proof fn lemma_first_primary_key_is_one(columns: Seq<ColumnDefinitionView>, index: int)
    requires
        is_first_primary_key(columns, index),
    ensures
        first_primary_key(columns) == index,
{
}

/// The table that a name and columns make, where they break no rule: its
/// primary key index is where the primary key stands. Otherwise, the first
/// rule that they break.
pub open spec fn validated_table(name: Seq<char>, columns: Seq<ColumnDefinitionView>) -> Result<
    TableDefinitionView,
    Seq<char>,
> {
    match table_violation(name, columns) {
        Some(problem) => Err(problem),
        None => Ok(
            TableDefinitionView {
                name,
                columns,
                primary_key_index: first_primary_key(columns) as nat,
            },
        ),
    }
}

impl ColumnDefinition {
    /// Checks the column by itself: it must have a name.
    pub fn validate(&self) -> (res: Result<(), std::string::String>)
        ensures
            match res {
                Ok(_) => column_violation(self@) is None,
                Err(problem) => column_violation(self@) == Some(problem@),
            },
    {
        if self.name.as_str().is_empty() {
            return Err("A column must have a name".to_owned());
        }
        Ok(())
    }
}

/// Whether an earlier column has the name of column `i`.
fn is_named_before(columns: &Vec<ColumnDefinition>, i: usize) -> (found: bool)
    requires
        i < columns.len(),
    ensures
        found == named_before(columns.deep_view(), i as int),
{
    let mut j: usize = 0;
    while j < i
        invariant
            j <= i < columns.len(),
            forall|k: int| 0 <= k < j ==> columns.deep_view()[k].name != columns.deep_view()[i as int].name,
        decreases i - j,
    {
        if columns[j].name == columns[i].name {
            assert(columns.deep_view()[j as int].name == columns.deep_view()[i as int].name);
            return true;
        }
        j += 1;
    }
    false
}

impl TableDefinition {
    /// Whether the definition keeps every rule of a table, and
    /// `primary_key_index` is where its primary key stands.
    pub open spec fn wf(&self) -> bool {
        &&& table_is_sound(self@.name, self@.columns)
        &&& is_only_primary_key(self@.columns, self.primary_key_index as int)
    }

    /// The table of the given name and columns, which must be what a table
    /// must be. Its primary key index is where the one primary key stands.
    pub fn new(name: std::string::String, columns: Vec<ColumnDefinition>) -> (table: Self)
        requires
            table_is_sound(name@, columns.deep_view()),
        ensures
            table.name == name,
            table.columns == columns,
            is_first_primary_key(table@.columns, table.primary_key_index as int),
            table.wf(),
    {
        proof {
            let views = columns.deep_view();
            let k = choose|k: int| is_only_primary_key(views, k);
            assert(views[k].primary_key);
        }
        let mut primary_key_index: usize = 0;
        while !columns[primary_key_index].primary_key
            invariant
                primary_key_index < columns.len(),
                forall|j: int| 0 <= j < primary_key_index ==> !(#[trigger] columns[j]).primary_key,
                exists|i: int| 0 <= i < columns.len() && (#[trigger] columns[i]).primary_key,
            decreases columns.len() - primary_key_index,
        {
            primary_key_index += 1;
        }
        proof {
            let views = columns.deep_view();
            lemma_first_primary_key_is_one(views, primary_key_index as int);
            lemma_sound_without_violation(name@, views);
        }
        TableDefinition { name, columns, primary_key_index }
    }

    /// The column that is the primary key.
    pub fn primary_key(&self) -> (column: &ColumnDefinition)
        requires
            self.wf(),
        ensures
            column == self.columns[self.primary_key_index as int],
            column.primary_key,
    {
        assert(self@.columns[self.primary_key_index as int].primary_key);
        &self.columns[self.primary_key_index]
    }

    /// The table of the given name and columns, if they keep every rule of a
    /// table; else the first rule that they break.
    pub fn validated(name: std::string::String, columns: Vec<ColumnDefinition>) -> (res: Result<
        Self,
        std::string::String,
    >)
        ensures
            match res {
                Ok(table) => {
                    &&& validated_table(name@, columns.deep_view()) == Ok::<
                        TableDefinitionView,
                        Seq<char>,
                    >(table@)
                    &&& table.wf()
                    &&& table.name == name
                    &&& table.columns == columns
                },
                Err(problem) => validated_table(name@, columns.deep_view()) == Err::<
                    TableDefinitionView,
                    Seq<char>,
                >(problem@),
            },
    {
        let candidate = TableDefinition { name, columns, primary_key_index: 0 };
        match candidate.validate() {
            Err(problem) => Err(problem),
            Ok(_) => {
                let TableDefinition { name, columns, .. } = candidate;
                proof {
                    lemma_sound_without_violation(name@, columns.deep_view());
                }
                let table = TableDefinition::new(name, columns);
                proof {
                    lemma_first_primary_key_is_one(table@.columns, table.primary_key_index as int);
                }
                Ok(table)
            },
        }
    }

    /// Checks the rules of a table in their fixed order, and reports the first
    /// that is broken.
    pub fn validate(&self) -> (res: Result<(), std::string::String>)
        ensures
            res is Ok <==> table_is_sound(self@.name, self@.columns),
            match res {
                Ok(_) => table_violation(self@.name, self@.columns) is None,
                Err(problem) => table_violation(self@.name, self@.columns) == Some(problem@),
            },
    {
        proof {
            lemma_sound_without_violation(self@.name, self@.columns);
        }
        if self.name.as_str().is_empty() {
            return Err("A table must have a name".to_owned());
        }
        if self.columns.len() == 0 {
            return Err("A table must have at least one column".to_owned());
        }
        let ghost columns = self@.columns;
        let mut primary_keys: usize = 0;
        let mut column_index: usize = 0;
        while column_index < self.columns.len()
            invariant
                column_index <= self.columns.len(),
                columns == self.columns.deep_view(),
                self@.name.len() > 0,
                self@.columns == columns,
                table_violation(self@.name, columns) is None <==> table_is_sound(
                    self@.name,
                    columns,
                ),
                columns_violation(columns, column_index as int) is None,
                primary_keys == primary_key_count(columns.take(column_index as int)),
                primary_keys <= column_index,
            decreases self.columns.len() - column_index,
        {
            let column = &self.columns[column_index];
            proof {
                assert(columns.take(column_index + 1).drop_last() =~= columns.take(
                    column_index as int,
                ));
            }
            if is_named_before(&self.columns, column_index) {
                let mut problem = std::string::String::new();
                problem.append("Problem at column ");
                push_decimal(&mut problem, column_index + 1);
                problem.append(": ");
                problem.append("There is more than one column with name `");
                problem.append(column.name.as_str());
                problem.append("` in table definition");
                proof {
                    lemma_first_complaint_stands(
                        columns,
                        column_index as int,
                        columns.len() as int,
                    );
                }
                return Err(problem);
            }
            if column.primary_key {
                primary_keys += 1;
            }
            if let Err(column_problem) = column.validate() {
                let mut problem = std::string::String::new();
                problem.append("Problem at column ");
                push_decimal(&mut problem, column_index + 1);
                problem.append(": ");
                problem.append(column_problem.as_str());
                proof {
                    lemma_first_complaint_stands(
                        columns,
                        column_index as int,
                        columns.len() as int,
                    );
                }
                return Err(problem);
            }
            column_index += 1;
        }
        assert(columns.take(column_index as int) =~= columns);
        if primary_keys != 1 {
            let mut problem = std::string::String::new();
            problem.append("A table must have exactly 1 PRIMARY KEY column, not ");
            push_decimal(&mut problem, primary_keys);
            return Err(problem);
        }
        Ok(())
    }
}

} // verus!
