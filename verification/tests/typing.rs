use laterite_ags4::table::{Cell, ColType};
use laterite_ags4::typing::{cell_for, cell_of_typed, Category, Emit, Typed};

#[test]
fn type_codes_become_columns() {
    for (code, kind, ty) in [
        ("2DP", Emit::Double, ColType::Double),
        ("0DP", Emit::BigInt, ColType::BigInt),
        ("YN", Emit::Bool, ColType::Boolean),
        ("ID", Emit::Varchar, ColType::Varchar),
        ("X", Emit::Varchar, ColType::Varchar),
        ("PA", Emit::Varchar, ColType::Varchar),
        ("DT", Emit::Varchar, ColType::Varchar),
        ("3SF", Emit::Double, ColType::Double),
        ("2SCI", Emit::Double, ColType::Double),
        (" 2dp ", Emit::Double, ColType::Double),
        ("RL", Emit::Varchar, ColType::Varchar),
        ("DP", Emit::Varchar, ColType::Varchar),
        ("", Emit::Varchar, ColType::Varchar),
        ("unheard of", Emit::Varchar, ColType::Varchar),
    ] {
        assert_eq!(Emit::of(code), kind, "{code}");
        assert_eq!(Emit::of(code).col_type(), ty, "{code}");
    }
}

#[test]
fn cells_are_typed_by_their_code() {
    assert_eq!(cell_for(Some("12.50"), "2DP", Emit::Double), Cell::Double(12.5f64.to_bits()));
    assert_eq!(cell_for(Some("42"), "0DP", Emit::BigInt), Cell::Int(42));
    assert_eq!(cell_for(Some("Y"), "YN", Emit::Bool), Cell::Bool(true));
    assert_eq!(cell_for(Some("no"), "YN", Emit::Bool), Cell::Bool(false));
    assert_eq!(cell_for(Some(" BH01 "), "ID", Emit::Varchar), Cell::Str("BH01".to_string()));
    assert_eq!(
        cell_for(Some("2020-08-18"), "DT", Emit::Varchar),
        Cell::Str("2020-08-18 00:00:00".to_string())
    );
}

#[test]
fn what_does_not_conform_is_null() {
    assert_eq!(cell_for(Some("deep"), "2DP", Emit::Double), Cell::Null);
    assert_eq!(cell_for(Some("several"), "0DP", Emit::BigInt), Cell::Null);
    assert_eq!(cell_for(Some("perhaps"), "YN", Emit::Bool), Cell::Null);
    assert_eq!(cell_for(Some("  "), "X", Emit::Varchar), Cell::Null);
    assert_eq!(cell_for(None, "X", Emit::Varchar), Cell::Null);
    // A value of another kind than the column's is null too.
    assert_eq!(cell_for(Some("text"), "X", Emit::Double), Cell::Null);
    assert_eq!(cell_for(Some("42"), "0DP", Emit::Varchar), Cell::Null);
}

#[test]
fn a_typed_value_fills_the_column_of_its_kind() {
    let one = 1.0f64.to_bits();
    assert_eq!(cell_of_typed(Typed::Number(Some(1), Some(one)), Emit::BigInt), Cell::Int(1));
    assert_eq!(cell_of_typed(Typed::Number(Some(1), Some(one)), Emit::Double), Cell::Double(one));
    assert_eq!(cell_of_typed(Typed::Number(None, Some(one)), Emit::BigInt), Cell::Null);
    assert_eq!(cell_of_typed(Typed::Null, Emit::Varchar), Cell::Null);
    assert_eq!(cell_of_typed(Typed::Compound, Emit::Varchar), Cell::Null);
}

#[test]
fn categories_become_kinds() {
    for (category, kind) in [
        (Some(Category::Decimal), Emit::Double),
        (Some(Category::Integer), Emit::BigInt),
        (Some(Category::Bool), Emit::Bool),
        (Some(Category::Text), Emit::Varchar),
        (Some(Category::Enum), Emit::Varchar),
        (Some(Category::Datetime), Emit::Varchar),
        (Some(Category::Date), Emit::Varchar),
        (Some(Category::Time), Emit::Varchar),
        (None, Emit::Varchar),
    ] {
        assert_eq!(Emit::of_category(category), kind);
    }
}
