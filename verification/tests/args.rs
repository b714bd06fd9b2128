use taffyrb::args::{
    available_space_from_fields, available_space_from_numbers, find, find_number, is_recognized,
    size_dimension_from_fields, size_length_percentage_from_fields, Entry, Value,
};
use taffyrb::error::LayoutError;
use taffyrb::geometry::Size;
use taffyrb::scalar::Scalar;
use taffyrb::style::{
    AvailableSpace, Dimension, Display, FlexDirection, JustifyContent, LengthPercentage, Style,
};

fn num(v: f32) -> Scalar {
    Scalar::from_bits(v.to_bits())
}

fn number(key: &str, v: f32) -> Entry {
    Entry::new(key, Value::Number(num(v)))
}

fn symbol(key: &str, name: &str) -> Entry {
    Entry::new(key, Value::Symbol(name.to_string()))
}

#[test]
fn find_takes_the_last_entry_of_a_name() {
    let entries = vec![number("a", 1.0), number("b", 2.0), number("a", 3.0)];
    assert_eq!(find(&entries, "a"), Some(&Value::Number(num(3.0))));
    assert_eq!(find(&entries, "b"), Some(&Value::Number(num(2.0))));
    assert_eq!(find(&entries, "c"), None);
    assert_eq!(find(&Vec::new(), "a"), None);
}

#[test]
fn find_number_tells_missing_from_malformed() {
    let entries = vec![number("a", 1.0), Entry::new("a", Value::Other), symbol("b", "x")];
    assert_eq!(find_number(&entries, "a"), Err(LayoutError::InvalidOption));
    assert_eq!(find_number(&entries, "b"), Err(LayoutError::InvalidOption));
    assert_eq!(find_number(&entries, "c"), Ok(None));
    assert_eq!(find_number(&vec![number("a", 1.0)], "a"), Ok(Some(num(1.0))));
    assert_eq!(
        find_number(&vec![Entry::new("a", Value::Nil)], "a"),
        Err(LayoutError::InvalidOption)
    );
    assert_eq!(
        find_number(&vec![Entry::new("a", Value::Other), number("a", 2.0)], "a"),
        Ok(Some(num(2.0)))
    );
}

#[test]
fn size_dimension_without_fields_is_auto() {
    assert_eq!(
        size_dimension_from_fields(&Vec::new()),
        Ok(Size { width: Dimension::Auto, height: Dimension::Auto })
    );
}

#[test]
fn size_dimension_reads_points_and_percent() {
    let fields = vec![number("width_pts", 50.0), number("height_pct", 25.0)];
    assert_eq!(
        size_dimension_from_fields(&fields),
        Ok(Size { width: Dimension::Points(num(50.0)), height: Dimension::Percent(num(25.0)) })
    );
}

#[test]
fn size_dimension_percent_wins_over_points() {
    let fields = vec![
        number("width_pct", 10.0),
        number("width_pts", 50.0),
        number("height_pts", 5.0),
        number("height_pct", 20.0),
    ];
    assert_eq!(
        size_dimension_from_fields(&fields),
        Ok(Size { width: Dimension::Percent(num(10.0)), height: Dimension::Percent(num(20.0)) })
    );
}

#[test]
fn size_dimension_auto_wins_whatever_its_value() {
    let fields = vec![
        number("width_pts", 50.0),
        number("width_pct", 10.0),
        Entry::new("width_auto", Value::Other),
        number("height_pts", 7.0),
        Entry::new("height_auto", Value::Nil),
    ];
    assert_eq!(
        size_dimension_from_fields(&fields),
        Ok(Size { width: Dimension::Auto, height: Dimension::Auto })
    );
}

#[test]
fn size_dimension_ignores_names_it_does_not_read() {
    let fields = vec![number("width_pts", 50.0), symbol("depth_pts", "deep")];
    assert_eq!(
        size_dimension_from_fields(&fields),
        Ok(Size { width: Dimension::Points(num(50.0)), height: Dimension::Auto })
    );
}

#[test]
fn size_dimension_rejects_values_that_are_no_numbers() {
    for key in ["width_pts", "width_pct", "height_pts", "height_pct"] {
        for bad in [Value::Nil, Value::Symbol("wide".to_string()), Value::Other] {
            let fields = vec![number("width_pts", 1.0), Entry::new(key, bad)];
            assert_eq!(
                size_dimension_from_fields(&fields),
                Err(LayoutError::InvalidOption),
                "{key}"
            );
        }
    }
    // Not even an automatic dimension excuses a malformed number.
    let fields = vec![Entry::new("width_auto", Value::Other), symbol("width_pts", "wide")];
    assert_eq!(size_dimension_from_fields(&fields), Err(LayoutError::InvalidOption));
}

#[test]
fn size_length_percentage_defaults_to_zero_points() {
    assert_eq!(
        size_length_percentage_from_fields(&Vec::new()),
        Ok(Size {
            width: LengthPercentage::Points(num(0.0)),
            height: LengthPercentage::Points(num(0.0)),
        })
    );
}

#[test]
fn size_length_percentage_reads_points_and_percent() {
    let fields = vec![
        number("width_pts", 10.0),
        number("height_pts", 4.0),
        number("height_pct", 2.0),
        Entry::new("width_auto", Value::Other),
    ];
    assert_eq!(
        size_length_percentage_from_fields(&fields),
        Ok(Size {
            width: LengthPercentage::Points(num(10.0)),
            height: LengthPercentage::Percent(num(2.0)),
        })
    );
}

#[test]
fn size_length_percentage_rejects_values_that_are_no_numbers() {
    for key in ["width_pts", "width_pct", "height_pts", "height_pct"] {
        for bad in [Value::Nil, Value::Symbol("wide".to_string()), Value::Other] {
            let fields = vec![number("height_pct", 1.0), Entry::new(key, bad)];
            assert_eq!(
                size_length_percentage_from_fields(&fields),
                Err(LayoutError::InvalidOption),
                "{key}"
            );
        }
    }
}

#[test]
fn available_space_from_fields_defaults_to_max_content() {
    assert_eq!(
        available_space_from_fields(&Vec::new()),
        Ok(Size { width: AvailableSpace::MaxContent, height: AvailableSpace::MaxContent })
    );
    let fields = vec![number("width", 200.0)];
    assert_eq!(
        available_space_from_fields(&fields),
        Ok(Size { width: AvailableSpace::Definite(num(200.0)), height: AvailableSpace::MaxContent })
    );
    let fields = vec![number("height", 0.0)];
    assert_eq!(
        available_space_from_fields(&fields),
        Ok(Size { width: AvailableSpace::MaxContent, height: AvailableSpace::Definite(num(0.0)) })
    );
}

#[test]
fn available_space_from_fields_rejects_values_that_are_no_numbers() {
    let fields = vec![Entry::new("width", Value::Nil)];
    assert_eq!(available_space_from_fields(&fields), Err(LayoutError::InvalidOption));
    let fields = vec![number("width", 200.0), symbol("height", "tall")];
    assert_eq!(available_space_from_fields(&fields), Err(LayoutError::InvalidOption));
    let fields = vec![Entry::new("height", Value::Other)];
    assert_eq!(available_space_from_fields(&fields), Err(LayoutError::InvalidOption));
}

#[test]
fn available_space_from_numbers_decodes_the_sentinel() {
    assert_eq!(
        available_space_from_numbers(num(-1.0), num(200.0)),
        Size { width: AvailableSpace::MaxContent, height: AvailableSpace::Definite(num(200.0)) }
    );
    assert_eq!(
        available_space_from_numbers(num(0.0), num(-1.0)),
        Size { width: AvailableSpace::Definite(num(0.0)), height: AvailableSpace::MaxContent }
    );
    assert_eq!(
        available_space_from_numbers(num(0.5), num(f32::INFINITY)),
        Size {
            width: AvailableSpace::Definite(num(0.5)),
            height: AvailableSpace::Definite(num(f32::INFINITY)),
        }
    );
}

#[test]
fn available_space_from_numbers_clamps_degenerate_numbers() {
    assert_eq!(
        available_space_from_numbers(num(-2.0), num(f32::NAN)),
        Size {
            width: AvailableSpace::Definite(num(0.0)),
            height: AvailableSpace::Definite(num(0.0)),
        }
    );
    assert_eq!(
        available_space_from_numbers(num(-0.5), num(-1.5)),
        Size {
            width: AvailableSpace::Definite(num(0.0)),
            height: AvailableSpace::Definite(num(0.0)),
        }
    );
}

#[test]
fn recognised_option_names() {
    for name in ["display", "size", "flex_direction", "flex_grow", "justify_content", "gap"] {
        assert!(is_recognized(name), "{name}");
    }
    for name in ["", "Display", "flex-grow", "padding", "gaps", "width_pts"] {
        assert!(!is_recognized(name), "{name}");
    }
}

#[test]
fn no_options_give_the_default_style() {
    assert_eq!(Style::from_options(&Vec::new()), Ok(Style::new()));
}

#[test]
fn every_option_overrides_its_property() {
    let size = Size { width: Dimension::Points(num(50.0)), height: Dimension::Auto };
    let gap = Size {
        width: LengthPercentage::Points(num(10.0)),
        height: LengthPercentage::Points(num(0.0)),
    };
    let options = vec![
        symbol("display", "grid"),
        Entry::new("size", Value::Dimensions(size)),
        symbol("flex_direction", "column-reverse"),
        number("flex_grow", 2.0),
        symbol("justify_content", "space-evenly"),
        Entry::new("gap", Value::Lengths(gap)),
    ];
    let style = Style::from_options(&options).unwrap();
    assert_eq!(style.display(), Display::Grid);
    assert_eq!(style.size(), size);
    assert_eq!(style.flex_direction(), FlexDirection::ColumnReverse);
    assert_eq!(style.flex_grow(), num(2.0));
    assert_eq!(style.justify_content(), Some(JustifyContent::SpaceEvenly));
    assert_eq!(style.gap(), gap);
}

#[test]
fn options_leave_other_properties_alone() {
    let style = Style::from_options(&vec![number("flex_grow", 1.0)]).unwrap();
    assert_eq!(style, Style::new().with_flex_grow(num(1.0)).unwrap());
    let style = Style::from_options(&vec![symbol("display", "none")]).unwrap();
    assert_eq!(style, Style::new().with_display(Display::Hidden));
}

#[test]
fn an_empty_option_changes_nothing() {
    let options = vec![
        Entry::new("display", Value::Nil),
        Entry::new("size", Value::Nil),
        Entry::new("flex_direction", Value::Nil),
        Entry::new("flex_grow", Value::Nil),
        Entry::new("justify_content", Value::Nil),
        Entry::new("gap", Value::Nil),
    ];
    assert_eq!(Style::from_options(&options), Ok(Style::new()));
}

#[test]
fn justify_content_none_unsets() {
    let base = Style::new().with_justify_content(Some(JustifyContent::Center));
    let style = base.with_options(&vec![symbol("justify_content", "none")]).unwrap();
    assert_eq!(style.justify_content(), None);
    let kept = base.with_options(&Vec::new()).unwrap();
    assert_eq!(kept.justify_content(), Some(JustifyContent::Center));
}

#[test]
fn a_later_entry_replaces_an_earlier_one() {
    let options = vec![symbol("display", "grid"), symbol("display", "none")];
    assert_eq!(Style::from_options(&options).map(|s| s.display()), Ok(Display::Hidden));
    let options = vec![symbol("display", "bogus"), symbol("display", "flex")];
    assert_eq!(Style::from_options(&options).map(|s| s.display()), Ok(Display::Flex));
}

#[test]
fn unknown_option_name_is_invalid_option() {
    let options = vec![symbol("display", "flex"), number("padding", 1.0)];
    assert_eq!(Style::from_options(&options), Err(LayoutError::InvalidOption));
    let options = vec![number("padding", 1.0), symbol("display", "bogus")];
    assert_eq!(Style::from_options(&options), Err(LayoutError::InvalidOption));
}

#[test]
fn unknown_symbol_is_invalid_enum_value() {
    assert_eq!(
        Style::from_options(&vec![symbol("display", "block")]),
        Err(LayoutError::InvalidEnumValue)
    );
    assert_eq!(
        Style::from_options(&vec![symbol("flex_direction", "diagonal")]),
        Err(LayoutError::InvalidEnumValue)
    );
    assert_eq!(
        Style::from_options(&vec![symbol("justify_content", "left")]),
        Err(LayoutError::InvalidEnumValue)
    );
}

#[test]
fn value_of_the_wrong_kind_is_invalid_option() {
    let size = Size { width: Dimension::Auto, height: Dimension::Auto };
    let gap = Size {
        width: LengthPercentage::Points(num(1.0)),
        height: LengthPercentage::Points(num(1.0)),
    };
    assert_eq!(
        Style::from_options(&vec![number("display", 1.0)]),
        Err(LayoutError::InvalidOption)
    );
    assert_eq!(
        Style::from_options(&vec![Entry::new("size", Value::Lengths(gap))]),
        Err(LayoutError::InvalidOption)
    );
    assert_eq!(
        Style::from_options(&vec![Entry::new("flex_direction", Value::Other)]),
        Err(LayoutError::InvalidOption)
    );
    assert_eq!(
        Style::from_options(&vec![symbol("flex_grow", "one")]),
        Err(LayoutError::InvalidOption)
    );
    assert_eq!(
        Style::from_options(&vec![Entry::new("justify_content", Value::Dimensions(size))]),
        Err(LayoutError::InvalidOption)
    );
    assert_eq!(
        Style::from_options(&vec![Entry::new("gap", Value::Dimensions(size))]),
        Err(LayoutError::InvalidOption)
    );
}

#[test]
fn negative_flex_grow_option_is_invalid_option() {
    assert_eq!(
        Style::from_options(&vec![number("flex_grow", -1.0)]),
        Err(LayoutError::InvalidOption)
    );
    assert_eq!(
        Style::from_options(&vec![number("flex_grow", f32::NAN)]),
        Err(LayoutError::InvalidOption)
    );
}

#[test]
fn the_first_failing_option_in_fixed_order_gives_the_error() {
    // display is read before flex_grow, wherever they stand in the list.
    let options = vec![number("flex_grow", -1.0), symbol("display", "block")];
    assert_eq!(Style::from_options(&options), Err(LayoutError::InvalidEnumValue));
    let options = vec![symbol("justify_content", "left"), symbol("size", "big")];
    assert_eq!(Style::from_options(&options), Err(LayoutError::InvalidOption));
}
