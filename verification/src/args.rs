//! Loosely typed arguments, as a caller from a dynamic language hands them
//! over: a list of named values, read by name.
use vstd::prelude::*;
use crate::error::LayoutError;
use crate::geometry::Size;
use crate::scalar::Scalar;
use crate::style::{
    same_text, AvailableSpace, Dimension, Display, FlexDirection, JustifyContent,
    LengthPercentage, Style, StyleView,
};

verus! {

/// One argument value.
#[derive(Clone, Debug, PartialEq, Eq)]
pub enum Value {
    /// The absent value: the argument was named but left empty.
    Nil,
    /// A symbolic name, such as `row` or `space-between`.
    Symbol(String),
    /// A number.
    Number(Scalar),
    /// A declared size.
    Dimensions(Size<Dimension>),
    /// A pair of gaps.
    Lengths(Size<LengthPercentage>),
    /// Anything else.
    Other,
}

/// What a `Value` holds, with text as a sequence of characters.
pub enum ValueView {
    Nil,
    Symbol(Seq<char>),
    Number(Scalar),
    Dimensions(Size<Dimension>),
    Lengths(Size<LengthPercentage>),
    Other,
}

impl View for Value {
    type V = ValueView;

    open spec fn view(&self) -> ValueView {
        match self {
            Value::Nil => ValueView::Nil,
            Value::Symbol(s) => ValueView::Symbol(s@),
            Value::Number(v) => ValueView::Number(*v),
            Value::Dimensions(s) => ValueView::Dimensions(*s),
            Value::Lengths(s) => ValueView::Lengths(*s),
            Value::Other => ValueView::Other,
        }
    }
}

/// A named argument.
#[derive(Clone, Debug, PartialEq, Eq)]
pub struct Entry {
    pub key: String,
    pub value: Value,
}

/// What an `Entry` holds.
pub struct EntryView {
    pub key: Seq<char>,
    pub value: ValueView,
}

impl View for Entry {
    type V = EntryView;

    open spec fn view(&self) -> EntryView {
        EntryView { key: self.key@, value: self.value@ }
    }
}

impl Entry {
    /// Names a value.
    pub fn new(key: &str, value: Value) -> (r: Entry)
        ensures
            r@ == (EntryView { key: key@, value: value@ }),
    {
        Entry { key: key.to_owned(), value }
    }
}

/// The views of a list of entries, in the same order.
pub open spec fn entries_view(entries: Seq<Entry>) -> Seq<EntryView> {
    Seq::new(entries.len(), |i: int| entries[i]@)
}

/// The value that a list gives to a name: that of the last entry with this
/// name, as in a table where a later entry replaces an earlier one.
pub open spec fn lookup(entries: Seq<EntryView>, key: Seq<char>) -> Option<ValueView>
    decreases entries.len(),
{
    if entries.len() == 0 {
        None
    } else if entries.last().key == key {
        Some(entries.last().value)
    } else {
        lookup(entries.drop_last(), key)
    }
}

/// The number that a list gives to a name: nothing where the name is
/// missing, the number where the value is one, and `InvalidOption` where the
/// value is of any other kind, the empty value included.
pub open spec fn number_at(entries: Seq<EntryView>, key: Seq<char>) -> Result<
    Option<Scalar>,
    LayoutError,
> {
    match lookup(entries, key) {
        None => Ok(None),
        Some(ValueView::Number(v)) => Ok(Some(v)),
        Some(_) => Err(LayoutError::InvalidOption),
    }
}

/// Finds the value that a list gives to a name.
pub fn find<'a>(entries: &'a Vec<Entry>, key: &str) -> (r: Option<&'a Value>)
    ensures
        match r {
            Some(v) => lookup(entries_view(entries@), key@) == Some(v@),
            None => lookup(entries_view(entries@), key@) is None,
        },
{
    let wanted: String = key.to_owned();
    let ghost all = entries_view(entries@);
    let mut i: usize = entries.len();
    assert(all.take(i as int) =~= all);
    while i > 0
        invariant
            i <= entries.len(),
            wanted@ == key@,
            all == entries_view(entries@),
            lookup(all, key@) == lookup(all.take(i as int), key@),
        decreases i,
    {
        let ghost prefix = all.take(i as int);
        assert(prefix.last() == entries@[i - 1]@);
        assert(prefix.drop_last() =~= all.take(i - 1));
        i = i - 1;
        if entries[i].key == wanted {
            return Some(&entries[i].value);
        }
    }
    assert(all.take(0).len() == 0);
    None
}

/// Finds the number that a list gives to a name.
pub fn find_number(entries: &Vec<Entry>, key: &str) -> (r: Result<Option<Scalar>, LayoutError>)
    ensures
        r == number_at(entries_view(entries@), key@),
{
    match find(entries, key) {
        None => Ok(None),
        Some(Value::Number(v)) => Ok(Some(*v)),
        Some(_) => Err(LayoutError::InvalidOption),
    }
}

/// The dimension that a list of fields declares under three names.
///
/// A value under `percent_key` or `points_key` that is no number is an
/// `InvalidOption`, the first of the two deciding. Otherwise being named at
/// all under `auto_key` wins, whatever the value; then the number under
/// `percent_key`; then the number under `points_key`. A list that says none
/// of these leaves the dimension automatic.
pub open spec fn dimension_of_fields(
    fields: Seq<EntryView>,
    auto_key: Seq<char>,
    percent_key: Seq<char>,
    points_key: Seq<char>,
) -> Result<Dimension, LayoutError> {
    match (number_at(fields, percent_key), number_at(fields, points_key)) {
        (Err(e), _) => Err(e),
        (Ok(_), Err(e)) => Err(e),
        (Ok(percent), Ok(points)) => Ok(
            if lookup(fields, auto_key) is Some {
                Dimension::Auto
            } else if let Some(p) = percent {
                Dimension::Percent(p)
            } else if let Some(v) = points {
                Dimension::Points(v)
            } else {
                Dimension::Auto
            },
        ),
    }
}

/// The declared size that a list of fields describes: the width under
/// `width_auto`, `width_pct` and `width_pts`, the height under `height_auto`,
/// `height_pct` and `height_pts`. Where both fail, the width gives the error.
pub open spec fn size_dimension_of_fields(fields: Seq<EntryView>) -> Result<
    Size<Dimension>,
    LayoutError,
> {
    match (
        dimension_of_fields(fields, "width_auto"@, "width_pct"@, "width_pts"@),
        dimension_of_fields(fields, "height_auto"@, "height_pct"@, "height_pts"@),
    ) {
        (Err(e), _) => Err(e),
        (Ok(_), Err(e)) => Err(e),
        (Ok(width), Ok(height)) => Ok(Size { width, height }),
    }
}

/// The length that a list of fields declares under two names.
///
/// A value under either name that is no number is an `InvalidOption`, the
/// one under `percent_key` deciding first. Otherwise the number under
/// `percent_key` wins over the number under `points_key`, and a list that
/// gives neither declares zero points.
pub open spec fn length_of_fields(
    fields: Seq<EntryView>,
    percent_key: Seq<char>,
    points_key: Seq<char>,
) -> Result<LengthPercentage, LayoutError> {
    match (number_at(fields, percent_key), number_at(fields, points_key)) {
        (Err(e), _) => Err(e),
        (Ok(_), Err(e)) => Err(e),
        (Ok(percent), Ok(points)) => Ok(
            if let Some(p) = percent {
                LengthPercentage::Percent(p)
            } else if let Some(v) = points {
                LengthPercentage::Points(v)
            } else {
                LengthPercentage::Points(Scalar::zero_spec())
            },
        ),
    }
}

/// The pair of lengths that a list of fields describes, under `width_pct`,
/// `width_pts`, `height_pct` and `height_pts`. Where both fail, the width
/// gives the error.
pub open spec fn size_length_percentage_of_fields(fields: Seq<EntryView>) -> Result<
    Size<LengthPercentage>,
    LayoutError,
> {
    match (
        length_of_fields(fields, "width_pct"@, "width_pts"@),
        length_of_fields(fields, "height_pct"@, "height_pts"@),
    ) {
        (Err(e), _) => Err(e),
        (Ok(_), Err(e)) => Err(e),
        (Ok(width), Ok(height)) => Ok(Size { width, height }),
    }
}

/// The room that a list of fields offers under one name: definite where the
/// list gives the name a number, as much as the content asks for where the
/// name is missing, and `InvalidOption` where its value is no number.
pub open spec fn space_of_fields(fields: Seq<EntryView>, key: Seq<char>) -> Result<
    AvailableSpace,
    LayoutError,
> {
    match number_at(fields, key) {
        Err(e) => Err(e),
        Ok(Some(v)) => Ok(AvailableSpace::Definite(v)),
        Ok(None) => Ok(AvailableSpace::MaxContent),
    }
}

/// The room that a list of fields offers, under `width` and `height`. Where
/// both fail, the width gives the error.
pub open spec fn available_space_of_fields(fields: Seq<EntryView>) -> Result<
    Size<AvailableSpace>,
    LayoutError,
> {
    match (space_of_fields(fields, "width"@), space_of_fields(fields, "height"@)) {
        (Err(e), _) => Err(e),
        (Ok(_), Err(e)) => Err(e),
        (Ok(width), Ok(height)) => Ok(Size { width, height }),
    }
}

/// The room that one plain number stands for: minus one is the sentinel for
/// "as much as the content asks for", a number that is zero or above is a
/// definite length, and every other number (a NaN, another negative one) is
/// a definite length of zero.
pub open spec fn space_of_number(value: Scalar) -> AvailableSpace {
    if value.is_minus_one() {
        AvailableSpace::MaxContent
    } else {
        AvailableSpace::Definite(value.clamped())
    }
}

fn dimension_from_fields(
    fields: &Vec<Entry>,
    auto_key: &str,
    percent_key: &str,
    points_key: &str,
) -> (r: Result<Dimension, LayoutError>)
    ensures
        r == dimension_of_fields(entries_view(fields@), auto_key@, percent_key@, points_key@),
{
    let percent = match find_number(fields, percent_key) {
        Ok(p) => p,
        Err(e) => { return Err(e); },
    };
    let points = match find_number(fields, points_key) {
        Ok(v) => v,
        Err(e) => { return Err(e); },
    };
    if find(fields, auto_key).is_some() {
        return Ok(Dimension::Auto);
    }
    if let Some(p) = percent {
        return Ok(Dimension::Percent(p));
    }
    if let Some(v) = points {
        return Ok(Dimension::Points(v));
    }
    Ok(Dimension::Auto)
}

fn length_from_fields(fields: &Vec<Entry>, percent_key: &str, points_key: &str) -> (r: Result<
    LengthPercentage,
    LayoutError,
>)
    ensures
        r == length_of_fields(entries_view(fields@), percent_key@, points_key@),
{
    let percent = match find_number(fields, percent_key) {
        Ok(p) => p,
        Err(e) => { return Err(e); },
    };
    let points = match find_number(fields, points_key) {
        Ok(v) => v,
        Err(e) => { return Err(e); },
    };
    if let Some(p) = percent {
        return Ok(LengthPercentage::Percent(p));
    }
    if let Some(v) = points {
        return Ok(LengthPercentage::Points(v));
    }
    Ok(LengthPercentage::Points(Scalar::zero()))
}

fn space_from_fields(fields: &Vec<Entry>, key: &str) -> (r: Result<AvailableSpace, LayoutError>)
    ensures
        r == space_of_fields(entries_view(fields@), key@),
{
    match find_number(fields, key) {
        Err(e) => Err(e),
        Ok(Some(v)) => Ok(AvailableSpace::Definite(v)),
        Ok(None) => Ok(AvailableSpace::MaxContent),
    }
}

/// Reads a declared size from a list of fields.
pub fn size_dimension_from_fields(fields: &Vec<Entry>) -> (r: Result<Size<Dimension>, LayoutError>)
    ensures
        r == size_dimension_of_fields(entries_view(fields@)),
{
    let width = match dimension_from_fields(fields, "width_auto", "width_pct", "width_pts") {
        Ok(d) => d,
        Err(e) => { return Err(e); },
    };
    let height = match dimension_from_fields(fields, "height_auto", "height_pct", "height_pts") {
        Ok(d) => d,
        Err(e) => { return Err(e); },
    };
    Ok(Size { width, height })
}

/// Reads a pair of gaps from a list of fields.
pub fn size_length_percentage_from_fields(fields: &Vec<Entry>) -> (r: Result<
    Size<LengthPercentage>,
    LayoutError,
>)
    ensures
        r == size_length_percentage_of_fields(entries_view(fields@)),
{
    let width = match length_from_fields(fields, "width_pct", "width_pts") {
        Ok(l) => l,
        Err(e) => { return Err(e); },
    };
    let height = match length_from_fields(fields, "height_pct", "height_pts") {
        Ok(l) => l,
        Err(e) => { return Err(e); },
    };
    Ok(Size { width, height })
}

/// Reads the room on offer from a list of fields.
pub fn available_space_from_fields(fields: &Vec<Entry>) -> (r: Result<
    Size<AvailableSpace>,
    LayoutError,
>)
    ensures
        r == available_space_of_fields(entries_view(fields@)),
{
    let width = match space_from_fields(fields, "width") {
        Ok(s) => s,
        Err(e) => { return Err(e); },
    };
    let height = match space_from_fields(fields, "height") {
        Ok(s) => s,
        Err(e) => { return Err(e); },
    };
    Ok(Size { width, height })
}

/// Reads the room on offer from two plain numbers, one per axis.
pub fn available_space_from_numbers(width: Scalar, height: Scalar) -> (r: Size<AvailableSpace>)
    ensures
        r == (Size { width: space_of_number(width), height: space_of_number(height) }),
{
    let w = if width.check_minus_one() {
        AvailableSpace::MaxContent
    } else {
        AvailableSpace::Definite(width.clamp_non_negative())
    };
    let h = if height.check_minus_one() {
        AvailableSpace::MaxContent
    } else {
        AvailableSpace::Definite(height.clamp_non_negative())
    };
    Size { width: w, height: h }
}

/// Whether a name is one of the six style options.
pub open spec fn recognized(name: Seq<char>) -> bool {
    ||| name == "display"@
    ||| name == "size"@
    ||| name == "flex_direction"@
    ||| name == "flex_grow"@
    ||| name == "justify_content"@
    ||| name == "gap"@
}

/// Whether every entry of a list names a style option.
pub open spec fn all_recognized(options: Seq<EntryView>) -> bool {
    forall|i: int| 0 <= i < options.len() ==> recognized(#[trigger] options[i].key)
}

/// The display mode after an option: unchanged where the option is missing
/// or empty, the mode that a symbol names, `InvalidEnumValue` for a symbol
/// that names none, `InvalidOption` for a value of another kind.
pub open spec fn display_option(value: Option<ValueView>, current: Display) -> Result<
    Display,
    LayoutError,
> {
    match value {
        None => Ok(current),
        Some(ValueView::Nil) => Ok(current),
        Some(ValueView::Symbol(s)) => match Display::of_name(s) {
            Some(d) => Ok(d),
            None => Err(LayoutError::InvalidEnumValue),
        },
        Some(_) => Err(LayoutError::InvalidOption),
    }
}

/// The declared size after an option: a size replaces the current one, a
/// value of another kind is an `InvalidOption`.
pub open spec fn size_option(value: Option<ValueView>, current: Size<Dimension>) -> Result<
    Size<Dimension>,
    LayoutError,
> {
    match value {
        None => Ok(current),
        Some(ValueView::Nil) => Ok(current),
        Some(ValueView::Dimensions(s)) => Ok(s),
        Some(_) => Err(LayoutError::InvalidOption),
    }
}

/// The direction after an option, by the same rules as the display mode.
pub open spec fn flex_direction_option(
    value: Option<ValueView>,
    current: FlexDirection,
) -> Result<FlexDirection, LayoutError> {
    match value {
        None => Ok(current),
        Some(ValueView::Nil) => Ok(current),
        Some(ValueView::Symbol(s)) => match FlexDirection::of_name(s) {
            Some(d) => Ok(d),
            None => Err(LayoutError::InvalidEnumValue),
        },
        Some(_) => Err(LayoutError::InvalidOption),
    }
}

/// The growth factor after an option: a number that is zero or above
/// replaces the current one; a NaN, a number below zero or a value of
/// another kind is an `InvalidOption`.
pub open spec fn flex_grow_option(value: Option<ValueView>, current: Scalar) -> Result<
    Scalar,
    LayoutError,
> {
    match value {
        None => Ok(current),
        Some(ValueView::Nil) => Ok(current),
        Some(ValueView::Number(v)) => if v.is_non_negative() {
            Ok(v)
        } else {
            Err(LayoutError::InvalidOption)
        },
        Some(_) => Err(LayoutError::InvalidOption),
    }
}

/// The justification after an option, by the same rules as the display
/// mode; the symbol `none` unsets it.
pub open spec fn justify_content_option(
    value: Option<ValueView>,
    current: Option<JustifyContent>,
) -> Result<Option<JustifyContent>, LayoutError> {
    match value {
        None => Ok(current),
        Some(ValueView::Nil) => Ok(current),
        Some(ValueView::Symbol(s)) => match JustifyContent::of_name(s) {
            Some(j) => Ok(j),
            None => Err(LayoutError::InvalidEnumValue),
        },
        Some(_) => Err(LayoutError::InvalidOption),
    }
}

/// The gaps after an option: a pair of lengths replaces the current one, a
/// value of another kind is an `InvalidOption`.
pub open spec fn gap_option(value: Option<ValueView>, current: Size<LengthPercentage>) -> Result<
    Size<LengthPercentage>,
    LayoutError,
> {
    match value {
        None => Ok(current),
        Some(ValueView::Nil) => Ok(current),
        Some(ValueView::Lengths(s)) => Ok(s),
        Some(_) => Err(LayoutError::InvalidOption),
    }
}

/// The style that a list of options describes, starting from `base`.
///
/// A list with a name that is not a style option is an `InvalidOption`,
/// wherever the name stands. Otherwise the six options are read by name in
/// the order display, size, flex_direction, flex_grow, justify_content, gap;
/// the first that fails gives the error, and where none fails each option
/// that is present replaces the property of its name.
pub open spec fn style_of_options(options: Seq<EntryView>, base: StyleView) -> Result<
    StyleView,
    LayoutError,
> {
    let display = display_option(lookup(options, "display"@), base.display);
    let size = size_option(lookup(options, "size"@), base.size);
    let flex_direction = flex_direction_option(
        lookup(options, "flex_direction"@),
        base.flex_direction,
    );
    let flex_grow = flex_grow_option(lookup(options, "flex_grow"@), base.flex_grow);
    let justify_content = justify_content_option(
        lookup(options, "justify_content"@),
        base.justify_content,
    );
    let gap = gap_option(lookup(options, "gap"@), base.gap);
    if !all_recognized(options) {
        Err(LayoutError::InvalidOption)
    } else if display is Err {
        Err(display->Err_0)
    } else if size is Err {
        Err(size->Err_0)
    } else if flex_direction is Err {
        Err(flex_direction->Err_0)
    } else if flex_grow is Err {
        Err(flex_grow->Err_0)
    } else if justify_content is Err {
        Err(justify_content->Err_0)
    } else if gap is Err {
        Err(gap->Err_0)
    } else {
        Ok(
            StyleView {
                display: display->Ok_0,
                size: size->Ok_0,
                flex_direction: flex_direction->Ok_0,
                flex_grow: flex_grow->Ok_0,
                justify_content: justify_content->Ok_0,
                gap: gap->Ok_0,
            },
        )
    }
}

/// Tests whether a name is one of the six style options.
pub fn is_recognized(name: &str) -> (r: bool)
    ensures
        r == recognized(name@),
{
    same_text(name, "display") || same_text(name, "size") || same_text(name, "flex_direction")
        || same_text(name, "flex_grow") || same_text(name, "justify_content") || same_text(
        name,
        "gap",
    )
}

fn check_names(options: &Vec<Entry>) -> (r: bool)
    ensures
        r == all_recognized(entries_view(options@)),
{
    let mut i: usize = 0;
    while i < options.len()
        invariant
            i <= options.len(),
            forall|j: int| 0 <= j < i ==> recognized(#[trigger] entries_view(options@)[j].key),
        decreases options.len() - i,
    {
        if !is_recognized(options[i].key.as_str()) {
            assert(!recognized(entries_view(options@)[i as int].key));
            return false;
        }
        i = i + 1;
    }
    true
}

fn read_display(value: Option<&Value>, current: Display) -> (r: Result<Display, LayoutError>)
    ensures
        r == display_option(
            match value {
                Some(v) => Some(v@),
                None => None,
            },
            current,
        ),
{
    match value {
        None => Ok(current),
        Some(Value::Nil) => Ok(current),
        Some(Value::Symbol(s)) => Display::from_name(s.as_str()),
        Some(_) => Err(LayoutError::InvalidOption),
    }
}

fn read_flex_direction(value: Option<&Value>, current: FlexDirection) -> (r: Result<
    FlexDirection,
    LayoutError,
>)
    ensures
        r == flex_direction_option(
            match value {
                Some(v) => Some(v@),
                None => None,
            },
            current,
        ),
{
    match value {
        None => Ok(current),
        Some(Value::Nil) => Ok(current),
        Some(Value::Symbol(s)) => FlexDirection::from_name(s.as_str()),
        Some(_) => Err(LayoutError::InvalidOption),
    }
}

fn read_justify_content(value: Option<&Value>, current: Option<JustifyContent>) -> (r: Result<
    Option<JustifyContent>,
    LayoutError,
>)
    ensures
        r == justify_content_option(
            match value {
                Some(v) => Some(v@),
                None => None,
            },
            current,
        ),
{
    match value {
        None => Ok(current),
        Some(Value::Nil) => Ok(current),
        Some(Value::Symbol(s)) => JustifyContent::from_name(s.as_str()),
        Some(_) => Err(LayoutError::InvalidOption),
    }
}

impl Style {
    /// Builds a style from a list of named options, over the style of a box
    /// that declares nothing.
    pub fn from_options(options: &Vec<Entry>) -> (r: Result<Style, LayoutError>)
        ensures
            match r {
                Ok(s) => style_of_options(entries_view(options@), StyleView::initial()) == Ok::<
                    StyleView,
                    LayoutError,
                >(s@),
                Err(e) => style_of_options(entries_view(options@), StyleView::initial()) == Err::<
                    StyleView,
                    LayoutError,
                >(e),
            },
    {
        Style::new().with_options(options)
    }

    /// Overrides the properties that a list of named options gives, and
    /// keeps the others.
    pub fn with_options(self, options: &Vec<Entry>) -> (r: Result<Style, LayoutError>)
        ensures
            match r {
                Ok(s) => style_of_options(entries_view(options@), self@) == Ok::<
                    StyleView,
                    LayoutError,
                >(s@),
                Err(e) => style_of_options(entries_view(options@), self@) == Err::<
                    StyleView,
                    LayoutError,
                >(e),
            },
    {
        if !check_names(options) {
            return Err(LayoutError::InvalidOption);
        }
        let display = match read_display(find(options, "display"), self.display()) {
            Ok(d) => d,
            Err(e) => { return Err(e); },
        };
        let size = match find(options, "size") {
            None => self.size(),
            Some(Value::Nil) => self.size(),
            Some(Value::Dimensions(s)) => *s,
            Some(_) => { return Err(LayoutError::InvalidOption); },
        };
        let flex_direction = match read_flex_direction(
            find(options, "flex_direction"),
            self.flex_direction(),
        ) {
            Ok(d) => d,
            Err(e) => { return Err(e); },
        };
        let flex_grow = match find(options, "flex_grow") {
            None => self.flex_grow(),
            Some(Value::Nil) => self.flex_grow(),
            Some(Value::Number(v)) => {
                if !v.check_non_negative() {
                    return Err(LayoutError::InvalidOption);
                }
                *v
            },
            Some(_) => { return Err(LayoutError::InvalidOption); },
        };
        let justify_content = match read_justify_content(
            find(options, "justify_content"),
            self.justify_content(),
        ) {
            Ok(j) => j,
            Err(e) => { return Err(e); },
        };
        let gap = match find(options, "gap") {
            None => self.gap(),
            Some(Value::Nil) => self.gap(),
            Some(Value::Lengths(s)) => *s,
            Some(_) => { return Err(LayoutError::InvalidOption); },
        };
        let grown = self.with_flex_grow(flex_grow);
        match grown {
            Ok(s) => Ok(
                s.with_display(display).with_size(size).with_flex_direction(
                    flex_direction,
                ).with_justify_content(justify_content).with_gap(gap),
            ),
            Err(e) => Err(e),
        }
    }
}

/// A list without entries leaves a style as it is.
pub proof fn lemma_no_options(base: StyleView)
    ensures
        style_of_options(Seq::<EntryView>::empty(), base) == Ok::<StyleView, LayoutError>(base),
{
}

/// Whatever style a list of options builds is valid, provided the style it
/// starts from is.
pub proof fn lemma_options_keep_validity(options: Seq<EntryView>, base: StyleView)
    requires
        base.valid(),
    ensures
        style_of_options(options, base) matches Ok(s) ==> s.valid(),
{
}

} // verus!
