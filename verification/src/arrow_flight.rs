//! Arrow Flight exchange: descriptors and tickets, and the conversion of
//! rows into columnar record batches and back.
//!
//! A value of a `Float64` column is kept as a [`FloatCell`]: the bits of a
//! float, or the value that the float is read from (an integer, an
//! unsigned integer, text, a boolean) or zero. The reader of a batch turns
//! a cell into an `f64`.

use vstd::prelude::*;
use vstd::string::*;
use crate::text::{lossy_string, utf8_lossy, str_eq, starts_with, push_str};

verus! {

/// Flight service configuration.
#[derive(Debug, Clone)]
pub struct FlightConfig {
    pub enabled: bool,
    pub bind_addr: String,
    pub max_record_batch_size: usize,
}

impl Default for FlightConfig {
    fn default() -> (r: Self)
        ensures
            r.enabled,
            r.bind_addr@ == "0.0.0.0:9999"@,
            r.max_record_batch_size == 10000,
    {
        FlightConfig { enabled: true, bind_addr: "0.0.0.0:9999".to_owned(), max_record_batch_size: 10000 }
    }
}

/// How a flight is named.
#[derive(Debug, Clone, Copy, PartialEq, Eq, Structural)]
pub enum DescriptorType {
    Unspecified,
    Path,
    Query,
}

/// A flight: its database and measurement, or a query.
#[derive(Debug, Clone)]
pub struct FlightDescriptor {
    pub type_: DescriptorType,
    pub database: String,
    pub measurement: String,
    pub sql_query: Option<String>,
}

/// The column types of a batch.
#[derive(Debug, Clone, Copy, PartialEq, Eq, Structural)]
pub enum ArrowType {
    Int64,
    Float64,
    Utf8,
    Bool,
    Timestamp,
    Dictionary,
}

/// A column of a schema.
#[derive(Debug, Clone)]
pub struct Field {
    pub name: String,
    pub data_type: ArrowType,
    pub nullable: bool,
}

/// The columns of a batch.
#[derive(Debug, Clone)]
pub struct Schema {
    pub fields: Vec<Field>,
}

/// A value of a `Float64` column, as the float it is or the value it is
/// read from: the bits of a float; an integer, an unsigned integer, text
/// or a boolean (one for true) converted to a float; or zero.
#[derive(Debug, Clone)]
pub enum FloatCell {
    Bits(u64),
    Integer(i64),
    Unsigned(u64),
    Text(Vec<u8>),
    Boolean(bool),
    Zero,
}

/// The values of a column.
#[derive(Debug, Clone)]
pub enum ColumnValues {
    Int64(Vec<i64>),
    Float64(Vec<FloatCell>),
    Utf8(Vec<String>),
    Bool(Vec<bool>),
    Dictionary(Vec<i64>),
}

/// A column of a batch.
#[derive(Debug, Clone)]
pub struct Column {
    pub name: String,
    pub data_type: ArrowType,
    pub values: ColumnValues,
    pub null_count: usize,
}

/// A batch of rows in columns.
#[derive(Debug, Clone)]
pub struct RecordBatch {
    pub schema: Schema,
    pub columns: Vec<Column>,
    pub row_count: usize,
}

/// The header of a piece of flight data.
#[derive(Debug, Clone)]
pub struct DataHeader {
    pub schema: Option<Schema>,
    pub is_last: bool,
    pub flight_metadata: Vec<u8>,
}

/// A piece of flight data.
#[derive(Debug, Clone)]
pub struct FlightData {
    pub flight_descriptor: Option<FlightDescriptor>,
    pub data_header: DataHeader,
    pub record_batch: Option<RecordBatch>,
}

/// Compression of a flight.
#[derive(Debug, Clone, Copy, PartialEq, Eq, Structural)]
pub enum CompressionType {
    Uncompressed,
    Gzip,
    Zstd,
}

/// Options of a ticket.
#[derive(Debug, Clone)]
pub struct FlightOptions {
    pub timeout_ms: Option<u64>,
    pub compression: Option<CompressionType>,
}

/// A request for a flight.
#[derive(Debug, Clone)]
pub struct FlightTicket {
    pub descriptor: FlightDescriptor,
    pub options: FlightOptions,
}

/// A field value of a row: an integer, a float (as a cell), bytes, a
/// boolean or an unsigned integer.
#[derive(Debug, Clone)]
pub enum CellValue {
    Integer(i64),
    Float(FloatCell),
    String(Vec<u8>),
    Boolean(bool),
    Unsigned(u64),
}

/// A row: tags and fields (each name once), and a timestamp.
#[derive(Debug, Clone)]
pub struct FlightRow {
    pub tags: Vec<(String, String)>,
    pub fields: Vec<(String, CellValue)>,
    pub timestamp: i64,
}

/// The value at a place of a column.
#[derive(Debug, Clone)]
pub enum ColumnValue {
    Int64(i64),
    Float64(FloatCell),
    Str(String),
    Bool(bool),
    Null,
}

// ----- abstract values -----

/// The abstract value of a float cell.
pub enum FloatCellView {
    Bits(u64),
    Integer(i64),
    Unsigned(u64),
    Text(Seq<u8>),
    Boolean(bool),
    Zero,
}

impl View for FloatCell {
    type V = FloatCellView;

    open spec fn view(&self) -> FloatCellView {
        match self {
            FloatCell::Bits(b) => FloatCellView::Bits(*b),
            FloatCell::Integer(i) => FloatCellView::Integer(*i),
            FloatCell::Unsigned(u) => FloatCellView::Unsigned(*u),
            FloatCell::Text(t) => FloatCellView::Text(t@),
            FloatCell::Boolean(b) => FloatCellView::Boolean(*b),
            FloatCell::Zero => FloatCellView::Zero,
        }
    }
}

/// The abstract value of a field value.
pub enum CellView {
    Integer(i64),
    Float(FloatCellView),
    Bytes(Seq<u8>),
    Boolean(bool),
    Unsigned(u64),
}

impl View for CellValue {
    type V = CellView;

    open spec fn view(&self) -> CellView {
        match self {
            CellValue::Integer(i) => CellView::Integer(*i),
            CellValue::Float(c) => CellView::Float(c@),
            CellValue::String(b) => CellView::Bytes(b@),
            CellValue::Boolean(b) => CellView::Boolean(*b),
            CellValue::Unsigned(u) => CellView::Unsigned(*u),
        }
    }
}

/// The abstract value of a row.
pub struct FlightRowView {
    pub tags: Seq<(Seq<char>, Seq<char>)>,
    pub fields: Seq<(Seq<char>, CellView)>,
    pub timestamp: i64,
}

impl View for FlightRow {
    type V = FlightRowView;

    open spec fn view(&self) -> FlightRowView {
        FlightRowView {
            tags: self.tags@.map_values(|t: (String, String)| (t.0@, t.1@)),
            fields: self.fields@.map_values(|f: (String, CellValue)| (f.0@, f.1@)),
            timestamp: self.timestamp,
        }
    }
}

/// The abstract value of a column's values.
pub enum ColumnValuesView {
    Int64(Seq<i64>),
    Float64(Seq<FloatCellView>),
    Utf8(Seq<Seq<char>>),
    Bool(Seq<bool>),
    Dictionary(Seq<i64>),
}

impl View for ColumnValues {
    type V = ColumnValuesView;

    open spec fn view(&self) -> ColumnValuesView {
        match self {
            ColumnValues::Int64(v) => ColumnValuesView::Int64(v@),
            ColumnValues::Float64(v) => ColumnValuesView::Float64(v@.map_values(|c: FloatCell| c@)),
            ColumnValues::Utf8(v) => ColumnValuesView::Utf8(v@.map_values(|s: String| s@)),
            ColumnValues::Bool(v) => ColumnValuesView::Bool(v@),
            ColumnValues::Dictionary(v) => ColumnValuesView::Dictionary(v@),
        }
    }
}

/// The abstract value of a column.
pub struct ColumnView {
    pub name: Seq<char>,
    pub data_type: ArrowType,
    pub values: ColumnValuesView,
    pub null_count: usize,
}

impl View for Column {
    type V = ColumnView;

    open spec fn view(&self) -> ColumnView {
        ColumnView { name: self.name@, data_type: self.data_type, values: self.values@, null_count: self.null_count }
    }
}

/// The abstract value of a schema column.
pub struct FieldView {
    pub name: Seq<char>,
    pub data_type: ArrowType,
    pub nullable: bool,
}

impl View for Field {
    type V = FieldView;

    open spec fn view(&self) -> FieldView {
        FieldView { name: self.name@, data_type: self.data_type, nullable: self.nullable }
    }
}

/// The abstract value of a batch.
pub struct RecordBatchView {
    pub fields: Seq<FieldView>,
    pub columns: Seq<ColumnView>,
    pub row_count: usize,
}

impl View for RecordBatch {
    type V = RecordBatchView;

    open spec fn view(&self) -> RecordBatchView {
        RecordBatchView {
            fields: self.schema.fields@.map_values(|f: Field| f@),
            columns: self.columns@.map_values(|c: Column| c@),
            row_count: self.row_count,
        }
    }
}

/// The abstract value of a place of a column.
pub enum ColumnValueView {
    Int64(i64),
    Float64(FloatCellView),
    Str(Seq<char>),
    Bool(bool),
    Null,
}

impl View for ColumnValue {
    type V = ColumnValueView;

    open spec fn view(&self) -> ColumnValueView {
        match self {
            ColumnValue::Int64(v) => ColumnValueView::Int64(*v),
            ColumnValue::Float64(c) => ColumnValueView::Float64(c@),
            ColumnValue::Str(s) => ColumnValueView::Str(s@),
            ColumnValue::Bool(b) => ColumnValueView::Bool(*b),
            ColumnValue::Null => ColumnValueView::Null,
        }
    }
}

// ----- building batches from rows -----

/// The value of the first tag of a name.
pub open spec fn lookup_tag(tags: Seq<(Seq<char>, Seq<char>)>, name: Seq<char>) -> Option<Seq<char>>
    decreases tags.len(),
{
    if tags.len() == 0 {
        None
    } else if tags[0].0 == name {
        Some(tags[0].1)
    } else {
        lookup_tag(tags.drop_first(), name)
    }
}

/// The value of the first field of a name.
pub open spec fn lookup_field(fields: Seq<(Seq<char>, CellView)>, name: Seq<char>) -> Option<CellView>
    decreases fields.len(),
{
    if fields.len() == 0 {
        None
    } else if fields[0].0 == name {
        Some(fields[0].1)
    } else {
        lookup_field(fields.drop_first(), name)
    }
}

/// The column type of a field value.
pub open spec fn type_of(v: CellView) -> ArrowType {
    match v {
        CellView::Integer(_) => ArrowType::Int64,
        CellView::Unsigned(_) => ArrowType::Int64,
        CellView::Float(_) => ArrowType::Float64,
        CellView::Boolean(_) => ArrowType::Bool,
        CellView::Bytes(_) => ArrowType::Utf8,
    }
}

/// The name of the column of a tag.
pub open spec fn tag_column_name(name: Seq<char>) -> Seq<char> {
    "tag_"@ + name
}

/// The schema of a batch of rows, read from its first row: a text column
/// for each tag, a nullable column for each field, typed by its value, and
/// the time; none for no rows.
pub open spec fn schema_of(rows: Seq<FlightRowView>) -> Seq<FieldView> {
    if rows.len() == 0 {
        Seq::empty()
    } else {
        let first = rows[0];
        Seq::new(first.tags.len(), |i: int| FieldView { name: tag_column_name(first.tags[i].0), data_type: ArrowType::Utf8, nullable: false })
            + Seq::new(first.fields.len(), |i: int| FieldView { name: first.fields[i].0, data_type: type_of(first.fields[i].1), nullable: true })
            + seq![FieldView { name: "time"@, data_type: ArrowType::Timestamp, nullable: false }]
    }
}

/// The float cell that a field value gives a `Float64` column.
pub open spec fn float_cell_of(v: Option<CellView>) -> FloatCellView {
    match v {
        Some(CellView::Float(c)) => c,
        Some(CellView::Integer(i)) => FloatCellView::Integer(i),
        Some(CellView::Unsigned(u)) => FloatCellView::Unsigned(u),
        Some(CellView::Bytes(b)) => FloatCellView::Text(b),
        Some(CellView::Boolean(b)) => FloatCellView::Boolean(b),
        None => FloatCellView::Zero,
    }
}

/// The column of a tag: its value in each row, empty where a row lacks it.
pub open spec fn tag_column(rows: Seq<FlightRowView>, name: Seq<char>) -> ColumnView {
    ColumnView {
        name: tag_column_name(name),
        data_type: ArrowType::Utf8,
        values: ColumnValuesView::Utf8(Seq::new(rows.len(), |r: int| match lookup_tag(rows[r].tags, name) {
            Some(v) => v,
            None => Seq::empty(),
        })),
        null_count: 0,
    }
}

/// The column of a field, typed by its value in the first row: integers
/// (unsigned ones cast to signed, zero where missing), floats, booleans
/// (false where missing) or text (the UTF-8 reading of bytes, empty where
/// missing or not bytes).
pub open spec fn field_column(rows: Seq<FlightRowView>, name: Seq<char>) -> ColumnView {
    let values = match lookup_field(rows[0].fields, name) {
        Some(CellView::Integer(_)) | Some(CellView::Unsigned(_)) => ColumnValuesView::Int64(Seq::new(rows.len(), |r: int|
            match lookup_field(rows[r].fields, name) {
                Some(CellView::Integer(v)) => v,
                Some(CellView::Unsigned(v)) => v as i64,
                _ => 0i64,
            })),
        Some(CellView::Float(_)) => ColumnValuesView::Float64(Seq::new(rows.len(), |r: int| float_cell_of(lookup_field(rows[r].fields, name)))),
        Some(CellView::Boolean(_)) => ColumnValuesView::Bool(Seq::new(rows.len(), |r: int|
            match lookup_field(rows[r].fields, name) {
                Some(CellView::Boolean(v)) => v,
                _ => false,
            })),
        _ => ColumnValuesView::Utf8(Seq::new(rows.len(), |r: int|
            match lookup_field(rows[r].fields, name) {
                Some(CellView::Bytes(b)) => utf8_lossy(b),
                _ => Seq::empty(),
            })),
    };
    ColumnView { name, data_type: type_of_values(values), values, null_count: 0 }
}

/// The column type that goes with the values of a field column.
pub open spec fn type_of_values(v: ColumnValuesView) -> ArrowType {
    match v {
        ColumnValuesView::Int64(_) => ArrowType::Int64,
        ColumnValuesView::Float64(_) => ArrowType::Float64,
        ColumnValuesView::Bool(_) => ArrowType::Bool,
        _ => ArrowType::Utf8,
    }
}

/// The columns of a batch of rows: a column per tag and per field of the
/// first row, then the timestamps.
pub open spec fn columns_of(rows: Seq<FlightRowView>) -> Seq<ColumnView> {
    let time = ColumnView {
        name: "time"@,
        data_type: ArrowType::Timestamp,
        values: ColumnValuesView::Int64(Seq::new(rows.len(), |r: int| rows[r].timestamp)),
        null_count: 0,
    };
    if rows.len() == 0 {
        seq![time]
    } else {
        Seq::new(rows[0].tags.len(), |i: int| tag_column(rows, rows[0].tags[i].0))
            + Seq::new(rows[0].fields.len(), |i: int| field_column(rows, rows[0].fields[i].0))
            + seq![time]
    }
}

/// The batch of some rows.
pub open spec fn batch_of(rows: Seq<FlightRowView>) -> RecordBatchView {
    RecordBatchView { fields: schema_of(rows), columns: columns_of(rows), row_count: rows.len() as usize }
}

/// The abstract values of some rows.
pub open spec fn rows_view(rows: Seq<FlightRow>) -> Seq<FlightRowView> {
    rows.map_values(|r: FlightRow| r@)
}


fn copy_bytes(b: &Vec<u8>) -> (r: Vec<u8>)
    ensures
        r@ == b@,
{
    let r = b.clone();
    proof { assert(r@ =~= b@); }
    r
}

/// A copy of a float cell.
pub fn copy_float_cell(c: &FloatCell) -> (r: FloatCell)
    ensures
        r@ == c@,
{
    match c {
        FloatCell::Bits(b) => FloatCell::Bits(*b),
        FloatCell::Integer(i) => FloatCell::Integer(*i),
        FloatCell::Unsigned(u) => FloatCell::Unsigned(*u),
        FloatCell::Text(t) => FloatCell::Text(copy_bytes(t)),
        FloatCell::Boolean(b) => FloatCell::Boolean(*b),
        FloatCell::Zero => FloatCell::Zero,
    }
}

fn find_tag<'a>(tags: &'a Vec<(String, String)>, name: &str) -> (r: Option<&'a String>)
    ensures
        match lookup_tag(tags@.map_values(|t: (String, String)| (t.0@, t.1@)), name@) {
            Some(v) => r matches Some(x) && x@ == v,
            None => r is None,
        },
{
    let ghost v = tags@.map_values(|t: (String, String)| (t.0@, t.1@));
    proof { assert(v.subrange(0, v.len() as int) =~= v); }
    let mut i: usize = 0;
    while i < tags.len()
        invariant
            i <= tags@.len(),
            v == tags@.map_values(|t: (String, String)| (t.0@, t.1@)),
            lookup_tag(v, name@) == lookup_tag(v.subrange(i as int, v.len() as int), name@),
        decreases tags@.len() - i,
    {
        proof { assert(v.subrange(i as int, v.len() as int).drop_first() =~= v.subrange(i + 1, v.len() as int)); }
        if str_eq(tags[i].0.as_str(), name) {
            return Some(&tags[i].1);
        }
        i = i + 1;
    }
    None
}

fn find_field<'a>(fields: &'a Vec<(String, CellValue)>, name: &str) -> (r: Option<&'a CellValue>)
    ensures
        match lookup_field(fields@.map_values(|f: (String, CellValue)| (f.0@, f.1@)), name@) {
            Some(v) => r matches Some(x) && x@ == v,
            None => r is None,
        },
{
    let ghost v = fields@.map_values(|f: (String, CellValue)| (f.0@, f.1@));
    proof { assert(v.subrange(0, v.len() as int) =~= v); }
    let mut i: usize = 0;
    while i < fields.len()
        invariant
            i <= fields@.len(),
            v == fields@.map_values(|f: (String, CellValue)| (f.0@, f.1@)),
            lookup_field(v, name@) == lookup_field(v.subrange(i as int, v.len() as int), name@),
        decreases fields@.len() - i,
    {
        proof { assert(v.subrange(i as int, v.len() as int).drop_first() =~= v.subrange(i + 1, v.len() as int)); }
        if str_eq(fields[i].0.as_str(), name) {
            return Some(&fields[i].1);
        }
        i = i + 1;
    }
    None
}

fn tag_name(name: &str) -> (r: String)
    ensures
        r@ == tag_column_name(name@),
{
    let mut s = "tag_".to_owned();
    push_str(&mut s, name);
    s
}

fn arrow_type_of(v: &CellValue) -> (r: ArrowType)
    ensures
        r == type_of(v@),
{
    match v {
        CellValue::Integer(_) | CellValue::Unsigned(_) => ArrowType::Int64,
        CellValue::Float(_) => ArrowType::Float64,
        CellValue::Boolean(_) => ArrowType::Bool,
        CellValue::String(_) => ArrowType::Utf8,
    }
}

fn build_tag_column(rows: &[FlightRow], name: &str) -> (r: Column)
    ensures
        r@ == tag_column(rows_view(rows@), name@),
{
    let ghost rv = rows_view(rows@);
    let mut values: Vec<String> = Vec::new();
    let mut i: usize = 0;
    while i < rows.len()
        invariant
            i <= rows@.len(),
            rv == rows_view(rows@),
            values@.len() == i,
            forall|k: int| 0 <= k < i ==> (#[trigger] values@[k])@ == match lookup_tag(rv[k].tags, name@) {
                Some(v) => v,
                None => Seq::<char>::empty(),
            },
        decreases rows@.len() - i,
    {
        let v = match find_tag(&rows[i].tags, name) {
            Some(t) => t.clone(),
            None => String::new(),
        };
        values.push(v);
        i = i + 1;
    }
    let r = Column { name: tag_name(name), data_type: ArrowType::Utf8, values: ColumnValues::Utf8(values), null_count: 0 };
    proof {
        assert(values@.map_values(|s: String| s@) =~= Seq::new(rv.len(), |k: int| match lookup_tag(rv[k].tags, name@) {
            Some(v) => v,
            None => Seq::<char>::empty(),
        }));
    }
    r
}

fn build_field_column(rows: &[FlightRow], name: &str) -> (r: Column)
    requires
        rows@.len() > 0,
    ensures
        r@ == field_column(rows_view(rows@), name@),
{
    let ghost rv = rows_view(rows@);
    let first = find_field(&rows[0].fields, name);
    let kind: u8 = match first {
        Some(CellValue::Integer(_)) | Some(CellValue::Unsigned(_)) => 0,
        Some(CellValue::Float(_)) => 1,
        Some(CellValue::Boolean(_)) => 2,
        _ => 3,
    };
    if kind == 0 {
        let mut values: Vec<i64> = Vec::new();
        let mut i: usize = 0;
        while i < rows.len()
            invariant
                i <= rows@.len(),
                rv == rows_view(rows@),
                values@.len() == i,
                forall|k: int| 0 <= k < i ==> #[trigger] values@[k] == match lookup_field(rv[k].fields, name@) {
                    Some(CellView::Integer(v)) => v,
                    Some(CellView::Unsigned(v)) => v as i64,
                    _ => 0i64,
                },
            decreases rows@.len() - i,
        {
            let v: i64 = match find_field(&rows[i].fields, name) {
                Some(CellValue::Integer(v)) => *v,
                Some(CellValue::Unsigned(v)) => *v as i64,
                _ => 0,
            };
            values.push(v);
            i = i + 1;
        }
        let ghost want = Seq::new(rv.len(), |k: int| match lookup_field(rv[k].fields, name@) {
            Some(CellView::Integer(v)) => v,
            Some(CellView::Unsigned(v)) => v as i64,
            _ => 0i64,
        });
        proof { assert(values@ =~= want); }
        Column { name: name.to_owned(), data_type: ArrowType::Int64, values: ColumnValues::Int64(values), null_count: 0 }
    } else if kind == 1 {
        let mut values: Vec<FloatCell> = Vec::new();
        let mut i: usize = 0;
        while i < rows.len()
            invariant
                i <= rows@.len(),
                rv == rows_view(rows@),
                values@.len() == i,
                forall|k: int| 0 <= k < i ==> (#[trigger] values@[k])@ == float_cell_of(lookup_field(rv[k].fields, name@)),
            decreases rows@.len() - i,
        {
            let v = match find_field(&rows[i].fields, name) {
                Some(CellValue::Float(c)) => copy_float_cell(c),
                Some(CellValue::Integer(x)) => FloatCell::Integer(*x),
                Some(CellValue::Unsigned(x)) => FloatCell::Unsigned(*x),
                Some(CellValue::String(b)) => FloatCell::Text(copy_bytes(b)),
                Some(CellValue::Boolean(b)) => FloatCell::Boolean(*b),
                None => FloatCell::Zero,
            };
            values.push(v);
            i = i + 1;
        }
        proof {
            assert(values@.map_values(|c: FloatCell| c@) =~= Seq::new(rv.len(), |k: int| float_cell_of(lookup_field(rv[k].fields, name@))));
        }
        Column { name: name.to_owned(), data_type: ArrowType::Float64, values: ColumnValues::Float64(values), null_count: 0 }
    } else if kind == 2 {
        let mut values: Vec<bool> = Vec::new();
        let mut i: usize = 0;
        while i < rows.len()
            invariant
                i <= rows@.len(),
                rv == rows_view(rows@),
                values@.len() == i,
                forall|k: int| 0 <= k < i ==> #[trigger] values@[k] == match lookup_field(rv[k].fields, name@) {
                    Some(CellView::Boolean(v)) => v,
                    _ => false,
                },
            decreases rows@.len() - i,
        {
            let v = match find_field(&rows[i].fields, name) {
                Some(CellValue::Boolean(b)) => *b,
                _ => false,
            };
            values.push(v);
            i = i + 1;
        }
        let ghost want = Seq::new(rv.len(), |k: int| match lookup_field(rv[k].fields, name@) {
            Some(CellView::Boolean(v)) => v,
            _ => false,
        });
        proof { assert(values@ =~= want); }
        Column { name: name.to_owned(), data_type: ArrowType::Bool, values: ColumnValues::Bool(values), null_count: 0 }
    } else {
        let mut values: Vec<String> = Vec::new();
        let mut i: usize = 0;
        while i < rows.len()
            invariant
                i <= rows@.len(),
                rv == rows_view(rows@),
                values@.len() == i,
                forall|k: int| 0 <= k < i ==> (#[trigger] values@[k])@ == match lookup_field(rv[k].fields, name@) {
                    Some(CellView::Bytes(b)) => utf8_lossy(b),
                    _ => Seq::<char>::empty(),
                },
            decreases rows@.len() - i,
        {
            let v = match find_field(&rows[i].fields, name) {
                Some(CellValue::String(b)) => lossy_string(b.as_slice()),
                _ => String::new(),
            };
            values.push(v);
            i = i + 1;
        }
        proof {
            assert(values@.map_values(|s: String| s@) =~= Seq::new(rv.len(), |k: int| match lookup_field(rv[k].fields, name@) {
                Some(CellView::Bytes(b)) => utf8_lossy(b),
                _ => Seq::<char>::empty(),
            }));
        }
        Column { name: name.to_owned(), data_type: ArrowType::Utf8, values: ColumnValues::Utf8(values), null_count: 0 }
    }
}

/// The record batch of some rows: the schema and columns of the first
/// row's tags and fields, and the timestamps.
pub fn build_batch_from_rows(rows: &[FlightRow]) -> (r: RecordBatch)
    ensures
        r@ == batch_of(rows_view(rows@)),
{
    let ghost rv = rows_view(rows@);
    let mut fields: Vec<Field> = Vec::new();
    let mut columns: Vec<Column> = Vec::new();
    if rows.len() > 0 {
        let first = &rows[0];
        let nt = first.tags.len();
        let nf = first.fields.len();
        let mut i: usize = 0;
        while i < nt
            invariant
                rows@.len() > 0,
                rv == rows_view(rows@),
                *first == rows@[0],
                nt == first.tags@.len(),
                i <= nt,
                fields@.len() == i,
                columns@.len() == i,
                forall|k: int| 0 <= k < i ==> (#[trigger] fields@[k])@ == (FieldView { name: tag_column_name(rv[0].tags[k].0), data_type: ArrowType::Utf8, nullable: false }),
                forall|k: int| 0 <= k < i ==> (#[trigger] columns@[k])@ == tag_column(rv, rv[0].tags[k].0),
            decreases nt - i,
        {
            let name = first.tags[i].0.as_str();
            fields.push(Field { name: tag_name(name), data_type: ArrowType::Utf8, nullable: false });
            columns.push(build_tag_column(rows, name));
            i = i + 1;
        }
        let mut j: usize = 0;
        while j < nf
            invariant
                rows@.len() > 0,
                rv == rows_view(rows@),
                *first == rows@[0],
                nt == first.tags@.len(),
                nf == first.fields@.len(),
                j <= nf,
                fields@.len() == nt + j,
                columns@.len() == nt + j,
                forall|k: int| 0 <= k < nt ==> (#[trigger] fields@[k])@ == (FieldView { name: tag_column_name(rv[0].tags[k].0), data_type: ArrowType::Utf8, nullable: false }),
                forall|k: int| 0 <= k < nt ==> (#[trigger] columns@[k])@ == tag_column(rv, rv[0].tags[k].0),
                forall|k: int| nt <= k < nt + j ==> (#[trigger] fields@[k])@ == (FieldView { name: rv[0].fields[k - nt].0, data_type: type_of(rv[0].fields[k - nt].1), nullable: true }),
                forall|k: int| nt <= k < nt + j ==> (#[trigger] columns@[k])@ == field_column(rv, rv[0].fields[k - nt].0),
            decreases nf - j,
        {
            let name = first.fields[j].0.as_str();
            fields.push(Field { name: name.to_owned(), data_type: arrow_type_of(&first.fields[j].1), nullable: true });
            columns.push(build_field_column(rows, name));
            j = j + 1;
        }
        fields.push(Field { name: "time".to_owned(), data_type: ArrowType::Timestamp, nullable: false });
    }
    let mut timestamps: Vec<i64> = Vec::new();
    let mut i: usize = 0;
    while i < rows.len()
        invariant
            i <= rows@.len(),
            rv == rows_view(rows@),
            timestamps@.len() == i,
            forall|k: int| 0 <= k < i ==> #[trigger] timestamps@[k] == rv[k].timestamp,
        decreases rows@.len() - i,
    {
        timestamps.push(rows[i].timestamp);
        i = i + 1;
    }
    proof { assert(timestamps@ =~= Seq::new(rv.len(), |r: int| rv[r].timestamp)); }
    columns.push(Column { name: "time".to_owned(), data_type: ArrowType::Timestamp, values: ColumnValues::Int64(timestamps), null_count: 0 });
    let r = RecordBatch { schema: Schema { fields }, columns, row_count: rows.len() };
    proof {
        assert(r@.fields =~= schema_of(rv));
        assert(r@.columns =~= columns_of(rv));
    }
    r
}


/// The number of rows that go in each batch: the configured size, or one
/// when it is zero.
pub open spec fn chunk_size(max_record_batch_size: usize) -> int {
    if max_record_batch_size == 0 { 1 } else { max_record_batch_size as int }
}

/// Rows cut into record batches of at most `max_record_batch_size` rows
/// (one row each when it is zero), in order; no batch for no rows.
pub fn convert_to_record_batches(max_record_batch_size: usize, rows: &[FlightRow]) -> (r: Vec<RecordBatch>)
    ensures
        r@.len() == (rows@.len() + chunk_size(max_record_batch_size) - 1) / chunk_size(max_record_batch_size),
        forall|k: int| 0 <= k < r@.len() ==> (#[trigger] r@[k])@ == batch_of(rows_view(rows@).subrange(
            k * chunk_size(max_record_batch_size),
            if (k + 1) * chunk_size(max_record_batch_size) <= rows@.len() { (k + 1) * chunk_size(max_record_batch_size) } else { rows@.len() as int },
        )),
{
    let c: usize = if max_record_batch_size == 0 { 1 } else { max_record_batch_size };
    let ghost cs = chunk_size(max_record_batch_size);
    let n = rows.len();
    let mut batches: Vec<RecordBatch> = Vec::new();
    let mut start: usize = 0;
    let mut k: usize = 0;
    while start < n
        invariant
            c as int == cs,
            cs >= 1,
            n == rows@.len(),
            start == if k * cs <= n { k * cs } else { n as int },
            k == 0 || (k - 1) * cs < n,
            batches@.len() == k,
            forall|j: int| 0 <= j < k ==> (#[trigger] batches@[j])@ == batch_of(rows_view(rows@).subrange(
                j * cs,
                if (j + 1) * cs <= n { (j + 1) * cs } else { n as int },
            )),
        decreases n - start,
    {
        proof {
            assert(k * cs < n);
            assert(k < n) by (nonlinear_arith)
                requires k * cs < n, cs >= 1;
            assert((k + 1) * cs == k * cs + cs) by (nonlinear_arith);
        }
        let end = if n - start >= c { start + c } else { n };
        let chunk = &rows[start..end];
        proof {
            assert(rows_view(chunk@) =~= rows_view(rows@).subrange(start as int, end as int));
        }
        batches.push(build_batch_from_rows(chunk));
        start = end;
        k = k + 1;
    }
    proof {
        assert(k * cs >= n);
        if k > 0 {
            assert((n + cs - 1) / cs == k) by (nonlinear_arith)
                requires (k - 1) * cs < n, k * cs >= n, cs >= 1, k >= 1;
        } else {
            assert(n == 0);
            assert((n + cs - 1) / cs == 0) by (nonlinear_arith)
                requires n == 0, cs >= 1;
        }
    }
    batches
}

/// The value at a place of a column: the place's value, read as an
/// integer for a dictionary column, or null past the end.
pub open spec fn value_at(c: ColumnView, index: int) -> ColumnValueView {
    match c.values {
        ColumnValuesView::Int64(v) => if 0 <= index < v.len() { ColumnValueView::Int64(v[index]) } else { ColumnValueView::Null },
        ColumnValuesView::Float64(v) => if 0 <= index < v.len() { ColumnValueView::Float64(v[index]) } else { ColumnValueView::Null },
        ColumnValuesView::Utf8(v) => if 0 <= index < v.len() { ColumnValueView::Str(v[index]) } else { ColumnValueView::Null },
        ColumnValuesView::Bool(v) => if 0 <= index < v.len() { ColumnValueView::Bool(v[index]) } else { ColumnValueView::Null },
        ColumnValuesView::Dictionary(v) => if 0 <= index < v.len() { ColumnValueView::Int64(v[index]) } else { ColumnValueView::Null },
    }
}

/// The value at a place of a column.
pub fn get_column_value(col: &Column, index: usize) -> (r: ColumnValue)
    ensures
        r@ == value_at(col@, index as int),
{
    match &col.values {
        ColumnValues::Int64(v) => if index < v.len() { ColumnValue::Int64(v[index]) } else { ColumnValue::Null },
        ColumnValues::Float64(v) => if index < v.len() { ColumnValue::Float64(copy_float_cell(&v[index])) } else { ColumnValue::Null },
        ColumnValues::Utf8(v) => if index < v.len() { ColumnValue::Str(v[index].clone()) } else { ColumnValue::Null },
        ColumnValues::Bool(v) => if index < v.len() { ColumnValue::Bool(v[index]) } else { ColumnValue::Null },
        ColumnValues::Dictionary(v) => if index < v.len() { ColumnValue::Int64(v[index]) } else { ColumnValue::Null },
    }
}

/// The number of values of a column.
pub open spec fn values_len(v: ColumnValuesView) -> int {
    match v {
        ColumnValuesView::Int64(x) => x.len() as int,
        ColumnValuesView::Float64(x) => x.len() as int,
        ColumnValuesView::Utf8(x) => x.len() as int,
        ColumnValuesView::Bool(x) => x.len() as int,
        ColumnValuesView::Dictionary(x) => x.len() as int,
    }
}

/// The row at a place of a batch's columns, column by column: `time` sets
/// the timestamp (zero without one), a column named `tag_` and a name adds
/// that tag from text, and another column adds a field of its value; null
/// places add nothing.
pub open spec fn imported_row(cols: Seq<ColumnView>, index: int) -> FlightRowView
    decreases cols.len(),
{
    if cols.len() == 0 {
        FlightRowView { tags: Seq::empty(), fields: Seq::empty(), timestamp: 0 }
    } else {
        let r = imported_row(cols.drop_last(), index);
        let c = cols.last();
        let v = value_at(c, index);
        if c.name == "time"@ {
            match v {
                ColumnValueView::Int64(t) => FlightRowView { timestamp: t, ..r },
                _ => r,
            }
        } else if "tag_"@.is_prefix_of(c.name) {
            match v {
                ColumnValueView::Str(s) => FlightRowView { tags: r.tags.push((c.name.skip(4), s)), ..r },
                _ => r,
            }
        } else {
            match v {
                ColumnValueView::Float64(f) => FlightRowView { fields: r.fields.push((c.name, CellView::Float(f))), ..r },
                ColumnValueView::Int64(x) => FlightRowView { fields: r.fields.push((c.name, CellView::Integer(x))), ..r },
                ColumnValueView::Bool(b) => FlightRowView { fields: r.fields.push((c.name, CellView::Boolean(b))), ..r },
                ColumnValueView::Str(s) => FlightRowView { fields: r.fields.push((c.name, CellView::Bytes(vstd::utf8::encode_utf8(s)))), ..r },
                ColumnValueView::Null => r,
            }
        }
    }
}

/// The rows of a batch: as many as its first column has values (none
/// without columns), each read from the columns at its place. Tags and
/// fields come in column order; read as a map, a later one of a name wins.
pub fn convert_from_record_batch(batch: &RecordBatch) -> (r: Vec<FlightRow>)
    ensures
        r@.len() == if batch@.columns.len() == 0 { 0 } else { values_len(batch@.columns[0].values) },
        forall|i: int| 0 <= i < r@.len() ==> (#[trigger] r@[i])@ == imported_row(batch@.columns, i),
{
    let ghost cols = batch@.columns;
    let row_count: usize = if batch.columns.len() > 0 {
        match &batch.columns[0].values {
            ColumnValues::Int64(v) => v.len(),
            ColumnValues::Float64(v) => v.len(),
            ColumnValues::Utf8(v) => v.len(),
            ColumnValues::Bool(v) => v.len(),
            ColumnValues::Dictionary(v) => v.len(),
        }
    } else {
        0
    };
    let mut rows: Vec<FlightRow> = Vec::new();
    let mut i: usize = 0;
    while i < row_count
        invariant
            cols == batch@.columns,
            i <= row_count,
            rows@.len() == i,
            forall|k: int| 0 <= k < i ==> (#[trigger] rows@[k])@ == imported_row(cols, k),
        decreases row_count - i,
    {
        let mut tags: Vec<(String, String)> = Vec::new();
        let mut fields: Vec<(String, CellValue)> = Vec::new();
        let mut timestamp: i64 = 0;
        let mut j: usize = 0;
        proof {
            assert(cols.subrange(0, 0) =~= Seq::<ColumnView>::empty());
            assert(tags@.map_values(|t: (String, String)| (t.0@, t.1@)) =~= Seq::empty());
            assert(fields@.map_values(|f: (String, CellValue)| (f.0@, f.1@)) =~= Seq::empty());
        }
        while j < batch.columns.len()
            invariant
                cols == batch@.columns,
                j <= cols.len(),
                (FlightRow { tags, fields, timestamp })@ == imported_row(cols.subrange(0, j as int), i as int),
            decreases cols.len() - j,
        {
            let col = &batch.columns[j];
            let value = get_column_value(col, i);
            let name = col.name.as_str();
            let ghost before = (FlightRow { tags, fields, timestamp })@;
            proof {
                assert(cols.subrange(0, j + 1).drop_last() =~= cols.subrange(0, j as int));
                assert(cols.subrange(0, j + 1).last() == col@);
            }
            if str_eq(name, "time") {
                match value {
                    ColumnValue::Int64(t) => { timestamp = t; },
                    _ => {},
                }
            } else if starts_with(name, "tag_") {
                proof { reveal_strlit("tag_"); }
                match value {
                    ColumnValue::Str(v) => {
                        let n = name.unicode_len();
                        let tag = name.substring_char(4, n).to_owned();
                        proof {
                            assert(tags@.push((tag, v)).map_values(|t: (String, String)| (t.0@, t.1@))
                                =~= tags@.map_values(|t: (String, String)| (t.0@, t.1@)).push((tag@, v@)));
                        }
                        tags.push((tag, v));
                    },
                    _ => {},
                }
            } else {
                let cell: Option<CellValue> = match value {
                    ColumnValue::Float64(f) => Some(CellValue::Float(f)),
                    ColumnValue::Int64(x) => Some(CellValue::Integer(x)),
                    ColumnValue::Bool(b) => Some(CellValue::Boolean(b)),
                    ColumnValue::Str(s) => Some(CellValue::String(s.as_str().as_bytes_vec())),
                    ColumnValue::Null => None,
                };
                match cell {
                    Some(c) => {
                        let key = col.name.clone();
                        proof {
                            assert(fields@.push((key, c)).map_values(|f: (String, CellValue)| (f.0@, f.1@))
                                =~= fields@.map_values(|f: (String, CellValue)| (f.0@, f.1@)).push((key@, c@)));
                        }
                        fields.push((key, c));
                    },
                    None => {},
                }
            }
            j = j + 1;
        }
        proof { assert(cols.subrange(0, cols.len() as int) =~= cols); }
        rows.push(FlightRow { tags, fields, timestamp });
        i = i + 1;
    }
    rows
}

} // verus!
