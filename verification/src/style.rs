//! The style vocabulary: what a box declares about itself.
use vstd::prelude::*;
use crate::error::LayoutError;
use crate::geometry::Size;
use crate::scalar::Scalar;

verus! {

/// Compares two strings character by character.
pub fn same_text(a: &str, b: &str) -> (r: bool)
    ensures
        r == (a@ == b@),
{
    a.to_owned() == b.to_owned()
}

/// How a box takes part in layout.
#[derive(Clone, Copy, Debug, PartialEq, Eq, Structural)]
pub enum Display {
    /// The children are laid out along a flex line.
    Flex,
    /// Accepted as a mode of its own; laid out as `Flex`.
    Grid,
    /// The box and everything below it take no room.
    Hidden,
}

impl Display {
    /// The display mode that a name stands for: `flex`, `grid` or `none`.
    pub open spec fn of_name(name: Seq<char>) -> Option<Display> {
        if name == "flex"@ {
            Some(Display::Flex)
        } else if name == "grid"@ {
            Some(Display::Grid)
        } else if name == "none"@ {
            Some(Display::Hidden)
        } else {
            None
        }
    }

    /// The mode by whose rules a box is laid out: a grid box follows the
    /// rules of a flex box, and the other two modes stand for themselves.
    pub open spec fn solved_as_spec(self) -> Display {
        if self == Display::Grid {
            Display::Flex
        } else {
            self
        }
    }

    /// The mode by whose rules a box is laid out.
    #[verifier::when_used_as_spec(solved_as_spec)]
    pub fn solved_as(self) -> (r: Display)
        ensures
            r == self.solved_as_spec(),
            r != Display::Grid,
            (r == Display::Hidden) == (self == Display::Hidden),
    {
        match self {
            Display::Flex => Display::Flex,
            Display::Grid => Display::Flex,
            Display::Hidden => Display::Hidden,
        }
    }

    /// Reads a display mode from its name. A name that stands for none is an
    /// `InvalidEnumValue`.
    pub fn from_name(name: &str) -> (r: Result<Display, LayoutError>)
        ensures
            match r {
                Ok(d) => Display::of_name(name@) == Some(d),
                Err(e) => e == LayoutError::InvalidEnumValue && Display::of_name(name@) is None,
            },
    {
        if same_text(name, "flex") {
            Ok(Display::Flex)
        } else if same_text(name, "grid") {
            Ok(Display::Grid)
        } else if same_text(name, "none") {
            Ok(Display::Hidden)
        } else {
            Err(LayoutError::InvalidEnumValue)
        }
    }
}

/// The direction of the main axis, and which end of it comes first.
#[derive(Clone, Copy, Debug, PartialEq, Eq, Structural)]
pub enum FlexDirection {
    Row,
    RowReverse,
    Column,
    ColumnReverse,
}

impl FlexDirection {
    /// The direction that a name stands for: `row`, `row-reverse`, `column`
    /// or `column-reverse`.
    pub open spec fn of_name(name: Seq<char>) -> Option<FlexDirection> {
        if name == "row"@ {
            Some(FlexDirection::Row)
        } else if name == "row-reverse"@ {
            Some(FlexDirection::RowReverse)
        } else if name == "column"@ {
            Some(FlexDirection::Column)
        } else if name == "column-reverse"@ {
            Some(FlexDirection::ColumnReverse)
        } else {
            None
        }
    }

    /// Reads a direction from its name. A name that stands for none is an
    /// `InvalidEnumValue`.
    pub fn from_name(name: &str) -> (r: Result<FlexDirection, LayoutError>)
        ensures
            match r {
                Ok(d) => FlexDirection::of_name(name@) == Some(d),
                Err(e) => e == LayoutError::InvalidEnumValue && FlexDirection::of_name(name@)
                    is None,
            },
    {
        if same_text(name, "row") {
            Ok(FlexDirection::Row)
        } else if same_text(name, "row-reverse") {
            Ok(FlexDirection::RowReverse)
        } else if same_text(name, "column") {
            Ok(FlexDirection::Column)
        } else if same_text(name, "column-reverse") {
            Ok(FlexDirection::ColumnReverse)
        } else {
            Err(LayoutError::InvalidEnumValue)
        }
    }
}

/// How free space on the main axis is shared out between the children.
#[derive(Clone, Copy, Debug, PartialEq, Eq, Structural)]
pub enum JustifyContent {
    FlexStart,
    FlexEnd,
    Center,
    SpaceBetween,
    SpaceAround,
    SpaceEvenly,
}

impl JustifyContent {
    /// What a name stands for. The outer option says whether the name is
    /// known; the inner one is empty for `none`, which leaves the property
    /// unset.
    pub open spec fn of_name(name: Seq<char>) -> Option<Option<JustifyContent>> {
        if name == "flex-start"@ {
            Some(Some(JustifyContent::FlexStart))
        } else if name == "flex-end"@ {
            Some(Some(JustifyContent::FlexEnd))
        } else if name == "center"@ {
            Some(Some(JustifyContent::Center))
        } else if name == "space-between"@ {
            Some(Some(JustifyContent::SpaceBetween))
        } else if name == "space-around"@ {
            Some(Some(JustifyContent::SpaceAround))
        } else if name == "space-evenly"@ {
            Some(Some(JustifyContent::SpaceEvenly))
        } else if name == "none"@ {
            Some(None)
        } else {
            None
        }
    }

    /// Reads a justification from its name; `none` gives the unset value. A
    /// name that stands for nothing is an `InvalidEnumValue`.
    pub fn from_name(name: &str) -> (r: Result<Option<JustifyContent>, LayoutError>)
        ensures
            match r {
                Ok(j) => JustifyContent::of_name(name@) == Some(j),
                Err(e) => e == LayoutError::InvalidEnumValue && JustifyContent::of_name(name@)
                    is None,
            },
    {
        if same_text(name, "flex-start") {
            Ok(Some(JustifyContent::FlexStart))
        } else if same_text(name, "flex-end") {
            Ok(Some(JustifyContent::FlexEnd))
        } else if same_text(name, "center") {
            Ok(Some(JustifyContent::Center))
        } else if same_text(name, "space-between") {
            Ok(Some(JustifyContent::SpaceBetween))
        } else if same_text(name, "space-around") {
            Ok(Some(JustifyContent::SpaceAround))
        } else if same_text(name, "space-evenly") {
            Ok(Some(JustifyContent::SpaceEvenly))
        } else if same_text(name, "none") {
            Ok(None)
        } else {
            Err(LayoutError::InvalidEnumValue)
        }
    }
}

/// A declared width or height.
#[derive(Clone, Copy, Debug, PartialEq, Eq, Structural)]
pub enum Dimension {
    /// Left to the layout.
    Auto,
    /// An absolute length.
    Points(Scalar),
    /// A share of the containing box, in hundredths: 50 is one half.
    Percent(Scalar),
}

/// A length that is never automatic; used for gaps.
#[derive(Clone, Copy, Debug, PartialEq, Eq, Structural)]
pub enum LengthPercentage {
    /// An absolute length.
    Points(Scalar),
    /// A share of the containing box, in hundredths: 50 is one half.
    Percent(Scalar),
}

/// The room that a container offers along one axis.
#[derive(Clone, Copy, Debug, PartialEq, Eq, Structural)]
pub enum AvailableSpace {
    /// This much and no more.
    Definite(Scalar),
    /// As little as the content can do with.
    MinContent,
    /// As much as the content asks for.
    MaxContent,
}

/// An automatic dimension.
pub fn dimension_auto() -> (r: Dimension)
    ensures
        r == Dimension::Auto,
{
    Dimension::Auto
}

/// A dimension of so many points.
pub fn dimension_points(value: Scalar) -> (r: Dimension)
    ensures
        r == Dimension::Points(value),
{
    Dimension::Points(value)
}

/// A dimension that is so many hundredths of the containing box.
pub fn dimension_percent(value: Scalar) -> (r: Dimension)
    ensures
        r == Dimension::Percent(value),
{
    Dimension::Percent(value)
}

/// A length of so many points.
pub fn length_percentage_points(value: Scalar) -> (r: LengthPercentage)
    ensures
        r == LengthPercentage::Points(value),
{
    LengthPercentage::Points(value)
}

/// A length that is so many hundredths of the containing box.
pub fn length_percentage_percent(value: Scalar) -> (r: LengthPercentage)
    ensures
        r == LengthPercentage::Percent(value),
{
    LengthPercentage::Percent(value)
}

/// A declared size from its two dimensions.
pub fn size_of_dimension(width: Dimension, height: Dimension) -> (r: Size<Dimension>)
    ensures
        r == (Size { width, height }),
{
    Size { width, height }
}

/// A pair of gaps from its two lengths.
pub fn size_of_length_percentage(width: LengthPercentage, height: LengthPercentage) -> (r: Size<
    LengthPercentage,
>)
    ensures
        r == (Size { width, height }),
{
    Size { width, height }
}

/// What a style says, property by property.
pub struct StyleView {
    pub display: Display,
    pub size: Size<Dimension>,
    pub flex_direction: FlexDirection,
    pub flex_grow: Scalar,
    pub justify_content: Option<JustifyContent>,
    pub gap: Size<LengthPercentage>,
}

impl StyleView {
    /// The style of a box that declares nothing: a flex row of automatic
    /// size that does not grow, with no justification and no gaps.
    pub open spec fn initial() -> StyleView {
        StyleView {
            display: Display::Flex,
            size: Size { width: Dimension::Auto, height: Dimension::Auto },
            flex_direction: FlexDirection::Row,
            flex_grow: Scalar::zero_spec(),
            justify_content: None,
            gap: Size {
                width: LengthPercentage::Points(Scalar::zero_spec()),
                height: LengthPercentage::Points(Scalar::zero_spec()),
            },
        }
    }

    /// A style is valid when its growth factor is a number that is zero or
    /// above.
    pub open spec fn valid(self) -> bool {
        self.flex_grow.is_non_negative()
    }
}

/// The properties of one box. A style is a value: copying it shares nothing,
/// and every style that exists is valid.
#[derive(Clone, Copy, Debug, PartialEq, Eq)]
pub struct Style {
    display: Display,
    size: Size<Dimension>,
    flex_direction: FlexDirection,
    flex_grow: Scalar,
    justify_content: Option<JustifyContent>,
    gap: Size<LengthPercentage>,
}

impl View for Style {
    type V = StyleView;

    closed spec fn view(&self) -> StyleView {
        StyleView {
            display: self.display,
            size: self.size,
            flex_direction: self.flex_direction,
            flex_grow: self.flex_grow,
            justify_content: self.justify_content,
            gap: self.gap,
        }
    }
}

impl Style {
    #[verifier::type_invariant]
    spec fn growth_in_range(self) -> bool {
        self.flex_grow.is_non_negative()
    }

    /// The style of a box that declares nothing.
    pub fn new() -> (r: Style)
        ensures
            r@ == StyleView::initial(),
            r@.valid(),
    {
        Style {
            display: Display::Flex,
            size: Size { width: Dimension::Auto, height: Dimension::Auto },
            flex_direction: FlexDirection::Row,
            flex_grow: Scalar::zero(),
            justify_content: None,
            gap: Size {
                width: LengthPercentage::Points(Scalar::zero()),
                height: LengthPercentage::Points(Scalar::zero()),
            },
        }
    }

    /// The display mode.
    pub fn display(&self) -> (r: Display)
        ensures
            r == self@.display,
    {
        self.display
    }

    /// The declared size.
    pub fn size(&self) -> (r: Size<Dimension>)
        ensures
            r == self@.size,
    {
        self.size
    }

    /// The direction of the main axis.
    pub fn flex_direction(&self) -> (r: FlexDirection)
        ensures
            r == self@.flex_direction,
    {
        self.flex_direction
    }

    /// The growth factor, which is never a NaN and never below zero.
    pub fn flex_grow(&self) -> (r: Scalar)
        ensures
            r == self@.flex_grow,
            r.is_non_negative(),
            self@.valid(),
    {
        proof {
            use_type_invariant(self);
        }
        self.flex_grow
    }

    /// The justification, if one is set.
    pub fn justify_content(&self) -> (r: Option<JustifyContent>)
        ensures
            r == self@.justify_content,
    {
        self.justify_content
    }

    /// The gaps between adjacent children, per axis.
    pub fn gap(&self) -> (r: Size<LengthPercentage>)
        ensures
            r == self@.gap,
    {
        self.gap
    }

    /// The same style with another display mode.
    pub fn with_display(self, display: Display) -> (r: Style)
        ensures
            r@ == (StyleView { display, ..self@ }),
    {
        proof {
            use_type_invariant(&self);
        }
        Style { display, ..self }
    }

    /// The same style with another declared size.
    pub fn with_size(self, size: Size<Dimension>) -> (r: Style)
        ensures
            r@ == (StyleView { size, ..self@ }),
    {
        proof {
            use_type_invariant(&self);
        }
        Style { size, ..self }
    }

    /// The same style with another direction.
    pub fn with_flex_direction(self, flex_direction: FlexDirection) -> (r: Style)
        ensures
            r@ == (StyleView { flex_direction, ..self@ }),
    {
        proof {
            use_type_invariant(&self);
        }
        Style { flex_direction, ..self }
    }

    /// The same style with another growth factor. A factor that is a NaN or
    /// below zero is refused as an `InvalidOption`.
    pub fn with_flex_grow(self, flex_grow: Scalar) -> (r: Result<Style, LayoutError>)
        ensures
            match r {
                Ok(s) => flex_grow.is_non_negative() && s@ == (StyleView { flex_grow, ..self@ }),
                Err(e) => !flex_grow.is_non_negative() && e == LayoutError::InvalidOption,
            },
    {
        if flex_grow.check_non_negative() {
            Ok(Style { flex_grow, ..self })
        } else {
            Err(LayoutError::InvalidOption)
        }
    }

    /// The same style with another justification, or with none.
    pub fn with_justify_content(self, justify_content: Option<JustifyContent>) -> (r: Style)
        ensures
            r@ == (StyleView { justify_content, ..self@ }),
    {
        proof {
            use_type_invariant(&self);
        }
        Style { justify_content, ..self }
    }

    /// The same style with other gaps.
    pub fn with_gap(self, gap: Size<LengthPercentage>) -> (r: Style)
        ensures
            r@ == (StyleView { gap, ..self@ }),
    {
        proof {
            use_type_invariant(&self);
        }
        Style { gap, ..self }
    }
}

impl Default for Style {
    fn default() -> (r: Style)
        ensures
            r@ == StyleView::initial(),
    {
        Style::new()
    }
}

} // verus!
