//! From an AGS type code to the column that a heading becomes, and from a raw
//! value to its typed cell.

use vstd::prelude::*;
use vstd::utf8::is_ascii_chars;

use crate::table::{fits, Cell, CellView, ColType};
use crate::text::{ascii_upper, is_digit, trimmed};

verus! {

/// The category of an AGS type code.
#[derive(Clone, Copy, Debug, PartialEq, Eq, Structural)]
pub enum Category {
    Text,
    Integer,
    Decimal,
    Datetime,
    Date,
    Time,
    Bool,
    Enum,
}

/// Whether a code is a number, then the given letters.
pub open spec fn counted(code: Seq<char>, letters: Seq<char>) -> bool {
    let n = code.len() - letters.len();
    &&& n > 0
    &&& code.skip(n) == letters
    &&& forall|i: int| 0 <= i < n ==> is_digit(#[trigger] code[i])
}

/// The category of a type code in ASCII capitals.
pub open spec fn category_of_code(code: Seq<char>) -> Option<Category> {
    if code == "ID"@ || code == "X"@ || code == "PA"@ || code == "PT"@ || code == "PU"@ || code
        == "T"@ || code == "U"@ || code == "DMS"@ || code == "MC"@ || code == "XN"@ || code
        == "RL"@ {
        Some(Category::Text)
    } else if code == "0DP"@ {
        Some(Category::Integer)
    } else if code == "DT"@ {
        Some(Category::Datetime)
    } else if code == "YN"@ {
        Some(Category::Bool)
    } else if counted(code, "DP"@) || counted(code, "SF"@) || counted(code, "SCI"@) {
        Some(Category::Decimal)
    } else {
        None
    }
}

/// A text in ASCII capitals.
pub open spec fn capitals(s: Seq<char>) -> Seq<char> {
    s.map_values(|c: char| ascii_upper(c))
}

/// The category of a type code.
pub uninterp spec fn category(ags_type: Seq<char>) -> Option<Category>;

/// `laterite_ags4_types::canonical_type` finds the category of a type code from
/// the code alone, in capitals and without the whitespace around it. On ASCII
/// codes the categories are stated; what Unicode's capitals make of any other
/// code is left to the name.
#[verifier::external_body]
pub(crate) fn canonical_type(ags_type: &str) -> (r: Option<Category>)
    ensures
        r == category(ags_type@),
        is_ascii_chars(ags_type@) ==> r == category_of_code(capitals(trimmed(ags_type@))),
{
    laterite_ags4_types::canonical_type(ags_type).map(|c| match c {
        laterite_ags4_types::CanonicalType::String => Category::Text,
        laterite_ags4_types::CanonicalType::Integer => Category::Integer,
        laterite_ags4_types::CanonicalType::Decimal => Category::Decimal,
        laterite_ags4_types::CanonicalType::Datetime => Category::Datetime,
        laterite_ags4_types::CanonicalType::Date => Category::Date,
        laterite_ags4_types::CanonicalType::Time => Category::Time,
        laterite_ags4_types::CanonicalType::Bool => Category::Bool,
        laterite_ags4_types::CanonicalType::Enum => Category::Enum,
    })
}

/// The name of the SQL type that stores a category.
pub open spec fn sql_name(category: Option<Category>) -> Seq<char> {
    match category {
        None => "VARCHAR"@,
        Some(Category::Text) => "VARCHAR"@,
        Some(Category::Enum) => "VARCHAR"@,
        Some(Category::Integer) => "BIGINT"@,
        Some(Category::Decimal) => "DOUBLE"@,
        Some(Category::Datetime) => "TIMESTAMP"@,
        Some(Category::Date) => "DATE"@,
        Some(Category::Time) => "TIME"@,
        Some(Category::Bool) => "BOOLEAN"@,
    }
}

/// `laterite_ags4_types::sql_type` names the SQL type of a type code's category,
/// `VARCHAR` for a code that has none.
#[verifier::external_body]
pub(crate) fn sql_type(ags_type: &str) -> (r: String)
    ensures
        r@ == sql_name(category(ags_type@)),
{
    laterite_ags4_types::sql_type(ags_type).to_string()
}

/// A typed value: what JSON can say of it. A number says what it is as an
/// integer, where it is one, and the IEEE 754 bits of what it is as a double.
#[derive(Clone, Debug, PartialEq, Eq)]
pub enum Typed {
    Null,
    Bool(bool),
    Number(Option<i64>, Option<u64>),
    Text(String),
    Compound,
}

/// What a typed value holds.
pub enum TypedView {
    Null,
    Bool(bool),
    Number(Option<i64>, Option<u64>),
    Text(Seq<char>),
    Compound,
}

impl View for Typed {
    type V = TypedView;

    open spec fn view(&self) -> TypedView {
        match self {
            Typed::Null => TypedView::Null,
            Typed::Bool(b) => TypedView::Bool(*b),
            Typed::Number(i, d) => TypedView::Number(*i, *d),
            Typed::Text(s) => TypedView::Text(s@),
            Typed::Compound => TypedView::Compound,
        }
    }
}

/// The typed value of a raw value under a type code.
pub uninterp spec fn typed(raw: Option<Seq<char>>, ags_type: Seq<char>) -> TypedView;

/// Whether a typed value is one that its category allows: null always, and else
/// an integer, a double or a truth value for the categories of those, and text
/// for the rest.
pub open spec fn allowed(value: TypedView, category: Option<Category>) -> bool {
    match value {
        TypedView::Null => true,
        TypedView::Bool(_) => category == Some(Category::Bool),
        TypedView::Number(i, d) => (category == Some(Category::Integer) && i is Some) || (category
            == Some(Category::Decimal) && d is Some),
        TypedView::Text(_) => category != Some(Category::Bool) && category != Some(
            Category::Integer,
        ) && category != Some(Category::Decimal),
        TypedView::Compound => false,
    }
}

/// Whether values of a category are kept as the text that they are.
pub open spec fn is_plain_text(category: Option<Category>) -> bool {
    category is None || category == Some(Category::Text) || category == Some(Category::Enum)
}

/// `laterite_ags4_types::parse_value` types a raw value under its type code, from
/// these two alone. Nothing, or whitespace, is null; where the code is one of
/// text, or unknown, the value is the text without the whitespace around it; and
/// a value always is one that the category allows, null where it does not parse.
/// Which number, time or truth value a text writes is left to the name.
#[verifier::external_body]
pub(crate) fn parse_value(raw: Option<&str>, ags_type: &str) -> (r: Typed)
    ensures
        r@ == typed(
            match raw {
                Some(s) => Some(s@),
                None => None,
            },
            ags_type@,
        ),
        allowed(r@, category(ags_type@)),
        match raw {
            Some(s) => {
                &&& trimmed(s@).len() == 0 ==> r@ is Null
                &&& trimmed(s@).len() > 0 && is_plain_text(category(ags_type@)) ==> r@
                    == TypedView::Text(trimmed(s@))
            },
            None => r@ is Null,
        },
{
    match laterite_ags4_types::parse_value(raw, ags_type) {
        serde_json::Value::Null => Typed::Null,
        serde_json::Value::Bool(b) => Typed::Bool(b),
        serde_json::Value::Number(n) => {
            Typed::Number(n.as_i64(), n.as_f64().map(|x| x.to_bits()))
        },
        serde_json::Value::String(s) => Typed::Text(s),
        serde_json::Value::Array(_) => Typed::Compound,
        serde_json::Value::Object(_) => Typed::Compound,
    }
}

/// The physical kind that a heading is emitted as.
#[derive(Clone, Copy, Debug, PartialEq, Eq, Structural)]
pub enum Emit {
    Varchar,
    Double,
    BigInt,
    Bool,
}

/// The kind for a category: numbers and truth values natively, all else as text.
pub open spec fn emit_of(category: Option<Category>) -> Emit {
    match category {
        Some(Category::Decimal) => Emit::Double,
        Some(Category::Integer) => Emit::BigInt,
        Some(Category::Bool) => Emit::Bool,
        _ => Emit::Varchar,
    }
}

/// The column type that a kind declares.
pub open spec fn declared(kind: Emit) -> ColType {
    match kind {
        Emit::Varchar => ColType::Varchar,
        Emit::Double => ColType::Double,
        Emit::BigInt => ColType::BigInt,
        Emit::Bool => ColType::Boolean,
    }
}

impl Emit {
    /// The kind for an AGS type code.
    pub fn of(ags_type: &str) -> (r: Emit)
        ensures
            r == emit_of(category(ags_type@)),
            is_ascii_chars(ags_type@) ==> r == emit_of(
                category_of_code(capitals(trimmed(ags_type@))),
            ),
    {
        Emit::of_category(canonical_type(ags_type))
    }

    /// The kind for a category.
    pub fn of_category(category: Option<Category>) -> (r: Emit)
        ensures
            r == emit_of(category),
    {
        match category {
            Some(Category::Decimal) => Emit::Double,
            Some(Category::Integer) => Emit::BigInt,
            Some(Category::Bool) => Emit::Bool,
            _ => Emit::Varchar,
        }
    }

    /// The column type that this kind declares.
    pub fn col_type(self) -> (r: ColType)
        ensures
            r == declared(self),
    {
        match self {
            Emit::Varchar => ColType::Varchar,
            Emit::Double => ColType::Double,
            Emit::BigInt => ColType::BigInt,
            Emit::Bool => ColType::Boolean,
        }
    }
}

/// The cell of a typed value in a column of the given kind: null where the value
/// is null or is not of that kind.
pub open spec fn cell_of(value: TypedView, kind: Emit) -> CellView {
    match (kind, value) {
        (Emit::Double, TypedView::Number(_, Some(d))) => CellView::Double(d),
        (Emit::BigInt, TypedView::Number(Some(i), _)) => CellView::Int(i),
        (Emit::Bool, TypedView::Bool(b)) => CellView::Bool(b),
        (Emit::Varchar, TypedView::Text(s)) => CellView::Str(s),
        _ => CellView::Null,
    }
}

/// The cell of a typed value in a column of the given kind.
pub fn cell_of_typed(value: Typed, kind: Emit) -> (r: Cell)
    ensures
        r@ == cell_of(value@, kind),
{
    match (kind, value) {
        (Emit::Double, Typed::Number(_, Some(d))) => Cell::Double(d),
        (Emit::BigInt, Typed::Number(Some(i), _)) => Cell::Int(i),
        (Emit::Bool, Typed::Bool(b)) => Cell::Bool(b),
        (Emit::Varchar, Typed::Text(s)) => Cell::Str(s),
        _ => Cell::Null,
    }
}

/// Types one raw value as a cell of the given kind. A value that does not conform
/// is null, never an error.
pub fn cell_for(raw: Option<&str>, ags_type: &str, kind: Emit) -> (r: Cell)
    ensures
        r@ == cell_of(
            typed(
                match raw {
                    Some(s) => Some(s@),
                    None => None,
                },
                ags_type@,
            ),
            kind,
        ),
        match raw {
            Some(s) => {
                &&& trimmed(s@).len() == 0 ==> r@ is Null
                &&& trimmed(s@).len() > 0 && is_plain_text(category(ags_type@)) && kind
                    == Emit::Varchar ==> r@ == CellView::Str(trimmed(s@))
            },
            None => r@ is Null,
        },
        kind == emit_of(category(ags_type@)) ==> (r@ is Null <==> typed(
            match raw {
                Some(s) => Some(s@),
                None => None,
            },
            ags_type@,
        ) is Null),
{
    cell_of_typed(parse_value(raw, ags_type), kind)
}

/// A cell always fits the column that its kind declares.
pub proof fn cell_fits_its_column(value: TypedView, kind: Emit)
    ensures
        fits(cell_of(value, kind), declared(kind)),
{
}

/// The kind of its category loses no value: a cell is null only where its value
/// is.
pub proof fn no_value_is_lost(value: TypedView, category: Option<Category>)
    requires
        allowed(value, category),
    ensures
        cell_of(value, emit_of(category)) is Null <==> value is Null,
{
}

/// The column of a heading and the SQL type named for it agree on numbers and
/// truth values; all that is emitted as text is named as text or as a time.
pub proof fn column_agrees_with_sql_name(category: Option<Category>)
    ensures
        declared(emit_of(category)) == ColType::Double <==> sql_name(category) == "DOUBLE"@,
        declared(emit_of(category)) == ColType::BigInt <==> sql_name(category) == "BIGINT"@,
        declared(emit_of(category)) == ColType::Boolean <==> sql_name(category) == "BOOLEAN"@,
        declared(emit_of(category)) == ColType::Varchar <==> (sql_name(category) == "VARCHAR"@
            || sql_name(category) == "TIMESTAMP"@ || sql_name(category) == "DATE"@ || sql_name(
            category,
        ) == "TIME"@),
{
    reveal_strlit("VARCHAR");
    reveal_strlit("BIGINT");
    reveal_strlit("DOUBLE");
    reveal_strlit("TIMESTAMP");
    reveal_strlit("DATE");
    reveal_strlit("TIME");
    reveal_strlit("BOOLEAN");
    assert("VARCHAR"@ != "BOOLEAN"@) by {
        assert("VARCHAR"@[0] != "BOOLEAN"@[0]);
    }
    assert("DOUBLE"@ != "BIGINT"@) by {
        assert("DOUBLE"@[0] != "BIGINT"@[0]);
    }
    assert("BIGINT"@.len() == "DOUBLE"@.len() == 6);
    assert("VARCHAR"@.len() == "BOOLEAN"@.len() == 7);
    assert("DATE"@.len() == "TIME"@.len() == 4);
    assert("TIMESTAMP"@.len() == 9);
    match category {
        Some(Category::Integer) => {},
        Some(Category::Decimal) => {},
        Some(Category::Bool) => {},
        _ => {
            assert(sql_name(category).len() != 6);
        },
    }
}

/// A cell shows its value as it is, in the kind of its category: a number of a numeric
/// type, a truth value of a boolean one, and text of any other.
pub proof fn a_cell_shows_its_value(value: TypedView, category: Option<Category>)
    ensures
        ({
            let cell = cell_of(value, emit_of(category));
            match (category, value) {
                (_, TypedView::Null) => cell is Null,
                (Some(Category::Decimal), TypedView::Number(_, Some(d))) => cell
                    == CellView::Double(d),
                (Some(Category::Integer), TypedView::Number(Some(i), _)) => cell == CellView::Int(i),
                (Some(Category::Bool), TypedView::Bool(b)) => cell == CellView::Bool(b),
                (Some(Category::Decimal), _) => cell is Null,
                (Some(Category::Integer), _) => cell is Null,
                (Some(Category::Bool), _) => cell is Null,
                (_, TypedView::Text(s)) => cell == CellView::Str(s),
                _ => cell is Null,
            }
        }),
{
}

/// The column of a heading is numeric or boolean just where its category is.
pub proof fn a_column_is_typed_by_its_category(category: Option<Category>)
    ensures
        declared(emit_of(category)) == match category {
            Some(Category::Decimal) => ColType::Double,
            Some(Category::Integer) => ColType::BigInt,
            Some(Category::Bool) => ColType::Boolean,
            _ => ColType::Varchar,
        },
{
}

} // verus!
