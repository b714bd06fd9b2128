//! The tree together with a flexbox solver: the tree says which nodes a pass
//! reaches and keeps the results, the solver does the arithmetic.
use taffy::geometry::Size as EngineSize;
use taffy::node::Taffy;
use taffy::style::AvailableSpace as EngineSpace;
use taffy::style::Dimension as EngineDimension;
use taffy::style::Display as EngineDisplay;
use taffy::style::FlexDirection as EngineDirection;
use taffy::style::JustifyContent as EngineJustify;
use taffy::style::LengthPercentage as EngineLength;
use taffy::style::Style as EngineStyle;
use taffyrb::args::available_space_from_numbers;
use taffyrb::error::LayoutError;
use taffyrb::geometry::{Layout, Size};
use taffyrb::model::Node;
use taffyrb::scalar::Scalar;
use taffyrb::source::TreeSource;
use taffyrb::style::{
    AvailableSpace, Dimension, Display, FlexDirection, JustifyContent, LengthPercentage, Style,
};
use taffyrb::tree::LayoutTree;

fn fresh() -> LayoutTree {
    TreeSource::new().make().unwrap()
}

fn num(v: f32) -> Scalar {
    Scalar::from_bits(v.to_bits())
}

fn float(s: Scalar) -> f32 {
    f32::from_bits(s.to_bits())
}

fn engine_dimension(d: Dimension) -> EngineDimension {
    match d {
        Dimension::Auto => EngineDimension::Auto,
        Dimension::Points(v) => EngineDimension::Points(float(v)),
        Dimension::Percent(p) => EngineDimension::Percent(float(p) / 100.0),
    }
}

fn engine_length(l: LengthPercentage) -> EngineLength {
    match l {
        LengthPercentage::Points(v) => EngineLength::Points(float(v)),
        LengthPercentage::Percent(p) => EngineLength::Percent(float(p) / 100.0),
    }
}

fn engine_space(s: AvailableSpace) -> EngineSpace {
    match s {
        AvailableSpace::Definite(v) => EngineSpace::Definite(float(v)),
        AvailableSpace::MinContent => EngineSpace::MinContent,
        AvailableSpace::MaxContent => EngineSpace::MaxContent,
    }
}

fn engine_style(style: Style) -> EngineStyle {
    EngineStyle {
        display: match style.display().solved_as() {
            Display::Hidden => EngineDisplay::None,
            _ => EngineDisplay::Flex,
        },
        size: EngineSize {
            width: engine_dimension(style.size().width),
            height: engine_dimension(style.size().height),
        },
        flex_direction: match style.flex_direction() {
            FlexDirection::Row => EngineDirection::Row,
            FlexDirection::RowReverse => EngineDirection::RowReverse,
            FlexDirection::Column => EngineDirection::Column,
            FlexDirection::ColumnReverse => EngineDirection::ColumnReverse,
        },
        flex_grow: float(style.flex_grow()),
        justify_content: style.justify_content().map(|j| match j {
            JustifyContent::FlexStart => EngineJustify::FlexStart,
            JustifyContent::FlexEnd => EngineJustify::FlexEnd,
            JustifyContent::Center => EngineJustify::Center,
            JustifyContent::SpaceBetween => EngineJustify::SpaceBetween,
            JustifyContent::SpaceAround => EngineJustify::SpaceAround,
            JustifyContent::SpaceEvenly => EngineJustify::SpaceEvenly,
        }),
        gap: EngineSize {
            width: engine_length(style.gap().width),
            height: engine_length(style.gap().height),
        },
        ..EngineStyle::default()
    }
}

/// Measures the whole tree with the solver, then runs the pass.
fn solve(
    tree: &mut LayoutTree,
    root: Node,
    space: Size<AvailableSpace>,
) -> Result<(), LayoutError> {
    if !tree.contains(root) {
        return tree.compute_layout(root, &Vec::new());
    }
    let mut engine = Taffy::new();
    let count = tree.node_count();
    let mut handles = Vec::new();
    for index in 0..count {
        let style = tree.style(tree.node_at(index).unwrap()).unwrap();
        handles.push(engine.new_leaf(engine_style(style)).unwrap());
    }
    for index in 0..count {
        for child in tree.children(tree.node_at(index).unwrap()).unwrap() {
            engine.add_child(handles[index], handles[child.index()]).unwrap();
        }
    }
    let offered =
        EngineSize { width: engine_space(space.width), height: engine_space(space.height) };
    engine.compute_layout(handles[root.index()], offered).unwrap();
    let measured: Vec<Layout> = handles
        .iter()
        .map(|handle| {
            let l = engine.layout(*handle).unwrap();
            Layout::new(
                num(l.size.width),
                num(l.size.height),
                num(l.location.x),
                num(l.location.y),
            )
        })
        .collect();
    tree.compute_layout(root, &measured)
}

fn definite(w: f32, h: f32) -> Size<AvailableSpace> {
    Size { width: AvailableSpace::Definite(num(w)), height: AvailableSpace::Definite(num(h)) }
}

fn sized(width: Dimension, height: Dimension) -> Style {
    Style::new().with_size(Size { width, height })
}

fn points(v: f32) -> Dimension {
    Dimension::Points(num(v))
}

fn size_of(tree: &LayoutTree, node: Node) -> (f32, f32) {
    let (w, h) = tree.layout(node).unwrap().size();
    (float(w), float(h))
}

fn place_of(tree: &LayoutTree, node: Node) -> (f32, f32) {
    let (x, y) = tree.layout(node).unwrap().location();
    (float(x), float(y))
}

#[test]
fn a_leaf_with_points_has_its_declared_size() {
    let mut tree = fresh();
    let leaf = tree.new_leaf(sized(points(50.0), points(20.0)));
    assert_eq!(solve(&mut tree, leaf, definite(200.0, 100.0)), Ok(()));
    assert_eq!(size_of(&tree, leaf), (50.0, 20.0));
}

#[test]
fn an_automatic_leaf_is_zero_by_zero() {
    let mut tree = fresh();
    let leaf = tree.new_leaf(Style::new());
    let space = Size { width: AvailableSpace::MaxContent, height: AvailableSpace::MaxContent };
    assert_eq!(solve(&mut tree, leaf, space), Ok(()));
    assert_eq!(size_of(&tree, leaf), (0.0, 0.0));
}

#[test]
fn a_leaf_with_percent_takes_its_share_of_the_offered_space() {
    let mut tree = fresh();
    let leaf = tree.new_leaf(sized(Dimension::Percent(num(50.0)), Dimension::Percent(num(25.0))));
    assert_eq!(solve(&mut tree, leaf, definite(200.0, 100.0)), Ok(()));
    assert_eq!(size_of(&tree, leaf), (100.0, 25.0));
}

#[test]
fn space_between_puts_the_second_child_at_the_far_end() {
    let mut tree = fresh();
    let container = tree.new_leaf(
        sized(points(200.0), Dimension::Auto)
            .with_justify_content(Some(JustifyContent::SpaceBetween)),
    );
    let first = tree.new_leaf(sized(points(50.0), Dimension::Auto));
    let second = tree.new_leaf(sized(points(50.0), Dimension::Auto));
    assert_eq!(tree.add_child(container, first), Ok(()));
    assert_eq!(tree.add_child(container, second), Ok(()));
    assert_eq!(solve(&mut tree, container, definite(200.0, 100.0)), Ok(()));
    assert_eq!(size_of(&tree, first).0, 50.0);
    assert_eq!(size_of(&tree, second).0, 50.0);
    assert_eq!(place_of(&tree, first).0, 0.0);
    assert_eq!(place_of(&tree, second).0, 150.0);
}

#[test]
fn children_are_placed_in_the_order_of_attachment() {
    let mut tree = fresh();
    let late = tree.new_leaf(sized(points(30.0), points(10.0)));
    let early = tree.new_leaf(sized(points(20.0), points(10.0)));
    let container = tree.new_leaf(sized(points(200.0), points(10.0)));
    assert_eq!(tree.add_child(container, early), Ok(()));
    assert_eq!(tree.add_child(container, late), Ok(()));
    assert_eq!(solve(&mut tree, container, definite(200.0, 100.0)), Ok(()));
    assert_eq!(place_of(&tree, early).0, 0.0);
    assert_eq!(place_of(&tree, late).0, 20.0);
}

#[test]
fn a_growing_child_takes_all_free_space_whatever_the_justification() {
    let all = [
        None,
        Some(JustifyContent::FlexStart),
        Some(JustifyContent::FlexEnd),
        Some(JustifyContent::Center),
        Some(JustifyContent::SpaceBetween),
        Some(JustifyContent::SpaceAround),
        Some(JustifyContent::SpaceEvenly),
    ];
    for justify in all {
        let mut tree = fresh();
        let container =
            tree.new_leaf(sized(points(200.0), Dimension::Auto).with_justify_content(justify));
        let child = tree.new_leaf(Style::new().with_flex_grow(num(1.0)).unwrap());
        assert_eq!(tree.add_child(container, child), Ok(()));
        assert_eq!(solve(&mut tree, container, definite(200.0, 100.0)), Ok(()));
        assert_eq!(size_of(&tree, child).0, 200.0, "{justify:?}");
        assert_eq!(place_of(&tree, child).0, 0.0, "{justify:?}");
    }
}

#[test]
fn gaps_stand_between_siblings_when_no_space_is_free() {
    let gap = Size {
        width: LengthPercentage::Points(num(10.0)),
        height: LengthPercentage::Points(num(0.0)),
    };
    let mut tree = fresh();
    let container = tree.new_leaf(sized(points(110.0), points(10.0)).with_gap(gap));
    let mut children = Vec::new();
    for _ in 0..3 {
        let child = tree.new_leaf(sized(points(30.0), points(10.0)));
        assert_eq!(tree.add_child(container, child), Ok(()));
        children.push(child);
    }
    assert_eq!(solve(&mut tree, container, definite(110.0, 10.0)), Ok(()));
    let places: Vec<f32> = children.iter().map(|c| place_of(&tree, *c).0).collect();
    assert_eq!(places, vec![0.0, 40.0, 80.0]);
}

#[test]
fn gaps_take_room_from_children_that_shrink() {
    let gap = Size {
        width: LengthPercentage::Points(num(10.0)),
        height: LengthPercentage::Points(num(0.0)),
    };
    let mut tree = fresh();
    let container = tree.new_leaf(sized(points(110.0), points(10.0)).with_gap(gap));
    let mut children = Vec::new();
    for _ in 0..3 {
        let child = tree.new_leaf(sized(points(50.0), points(10.0)));
        assert_eq!(tree.add_child(container, child), Ok(()));
        children.push(child);
    }
    assert_eq!(solve(&mut tree, container, definite(110.0, 10.0)), Ok(()));
    for (i, child) in children.iter().enumerate() {
        assert_eq!(size_of(&tree, *child).0, 30.0);
        assert_eq!(place_of(&tree, *child).0, 40.0 * i as f32);
    }
}

#[test]
fn an_automatic_container_is_as_wide_as_children_and_gaps() {
    let gap = Size {
        width: LengthPercentage::Points(num(10.0)),
        height: LengthPercentage::Points(num(0.0)),
    };
    let mut tree = fresh();
    let container = tree.new_leaf(Style::new().with_gap(gap));
    for height in [10.0, 25.0, 15.0] {
        let child = tree.new_leaf(sized(points(30.0), points(height)));
        assert_eq!(tree.add_child(container, child), Ok(()));
    }
    let space = available_space_from_numbers(num(-1.0), num(-1.0));
    assert_eq!(solve(&mut tree, container, space), Ok(()));
    assert_eq!(size_of(&tree, container), (110.0, 25.0));
}

#[test]
fn an_automatic_child_fills_the_cross_axis() {
    let mut tree = fresh();
    let container = tree.new_leaf(sized(points(200.0), points(80.0)));
    let stretched = tree.new_leaf(sized(points(50.0), Dimension::Auto));
    let fixed = tree.new_leaf(sized(points(50.0), points(30.0)));
    assert_eq!(tree.add_child(container, stretched), Ok(()));
    assert_eq!(tree.add_child(container, fixed), Ok(()));
    assert_eq!(solve(&mut tree, container, definite(200.0, 80.0)), Ok(()));
    assert_eq!(size_of(&tree, stretched), (50.0, 80.0));
    assert_eq!(size_of(&tree, fixed), (50.0, 30.0));
}

#[test]
fn a_column_runs_down_the_vertical_axis() {
    let mut tree = fresh();
    let container = tree.new_leaf(
        sized(points(100.0), points(200.0)).with_flex_direction(FlexDirection::Column),
    );
    let first = tree.new_leaf(sized(points(10.0), points(40.0)));
    let second = tree.new_leaf(sized(points(10.0), points(60.0)));
    assert_eq!(tree.add_child(container, first), Ok(()));
    assert_eq!(tree.add_child(container, second), Ok(()));
    assert_eq!(solve(&mut tree, container, definite(100.0, 200.0)), Ok(()));
    assert_eq!(place_of(&tree, first), (0.0, 0.0));
    assert_eq!(place_of(&tree, second), (0.0, 40.0));
}

#[test]
fn solving_twice_gives_identical_bits() {
    let mut tree = fresh();
    let container = tree.new_leaf(
        sized(points(200.0), points(50.0)).with_justify_content(Some(JustifyContent::SpaceAround)),
    );
    let mut nodes = vec![container];
    for width in [33.0, 41.5, 17.25] {
        let child = tree.new_leaf(sized(points(width), Dimension::Auto));
        assert_eq!(tree.add_child(container, child), Ok(()));
        nodes.push(child);
    }
    assert_eq!(solve(&mut tree, container, definite(200.0, 50.0)), Ok(()));
    let first: Vec<Layout> = nodes.iter().map(|n| tree.layout(*n).unwrap()).collect();
    assert_eq!(solve(&mut tree, container, definite(200.0, 50.0)), Ok(()));
    let second: Vec<Layout> = nodes.iter().map(|n| tree.layout(*n).unwrap()).collect();
    assert_eq!(first, second);
}

#[test]
fn a_hidden_node_is_zero_and_its_children_are_skipped() {
    let mut tree = fresh();
    let container = tree.new_leaf(sized(points(200.0), points(50.0)));
    let shown = tree.new_leaf(sized(points(40.0), points(10.0)));
    let gone =
        tree.new_leaf(sized(points(60.0), points(10.0)).with_display(Display::Hidden));
    let inside = tree.new_leaf(sized(points(5.0), points(5.0)));
    assert_eq!(tree.add_child(container, shown), Ok(()));
    assert_eq!(tree.add_child(container, gone), Ok(()));
    assert_eq!(tree.add_child(gone, inside), Ok(()));
    assert_eq!(solve(&mut tree, container, definite(200.0, 50.0)), Ok(()));
    assert_eq!(size_of(&tree, shown), (40.0, 10.0));
    assert_eq!(size_of(&tree, gone), (0.0, 0.0));
    assert_eq!(tree.layout(inside), Err(LayoutError::NotYetComputed));
}

#[test]
fn grid_is_laid_out_as_flex() {
    let mut tree = fresh();
    let container =
        tree.new_leaf(sized(points(200.0), points(50.0)).with_display(Display::Grid));
    let first = tree.new_leaf(sized(points(40.0), points(10.0)));
    let second = tree.new_leaf(sized(points(40.0), points(10.0)));
    assert_eq!(tree.add_child(container, first), Ok(()));
    assert_eq!(tree.add_child(container, second), Ok(()));
    assert_eq!(solve(&mut tree, container, definite(200.0, 50.0)), Ok(()));
    assert_eq!(place_of(&tree, first), (0.0, 0.0));
    assert_eq!(place_of(&tree, second), (40.0, 0.0));
}

#[test]
fn solving_from_a_foreign_root_is_unknown_node() {
    let mut source = TreeSource::new();
    let mut tree = source.make().unwrap();
    let mut other = source.make().unwrap();
    let own = tree.new_leaf(Style::new());
    let foreign = other.new_leaf(Style::new());
    assert_eq!(solve(&mut tree, foreign, definite(1.0, 1.0)), Err(LayoutError::UnknownNode));
    assert_eq!(tree.layout(own), Err(LayoutError::NotYetComputed));
}
