//! The drawing that rendering produces: a tree of paths and groups.

use crate::bound::GeoPoint;
use crate::style::option_string_view;
use vstd::prelude::*;

verus! {

/// How the inside of a path is painted.
#[derive(Clone, Copy, Debug, PartialEq, Eq, Structural)]
pub enum Fill {
    /// Not at all: only the line itself is drawn.
    Hollow,
}

/// An open polyline through `points`: the first point starts it, each
/// later point continues it with a straight segment, and nothing closes it.
/// `stroke`, when present, replaces the document's line colour for this
/// path.
#[derive(Debug, PartialEq, Eq)]
pub struct PathElement {
    pub id: i64,
    pub stroke: Option<String>,
    pub fill: Fill,
    pub points: Vec<GeoPoint>,
}

/// One step of drawing a path.
#[derive(Clone, Copy, Debug, PartialEq, Eq, Structural)]
pub enum PathCommand {
    /// Lift the pen and put it down at the point.
    MoveTo(GeoPoint),
    /// Draw a straight segment from where the pen is to the point.
    LineTo(GeoPoint),
}

/// The steps that draw an open polyline through `points`: a move to the
/// first point, then a line to each later one.
pub open spec fn polyline(points: Seq<GeoPoint>) -> Seq<PathCommand> {
    Seq::new(
        points.len(),
        |i: int|
            if i == 0 {
                PathCommand::MoveTo(points[i])
            } else {
                PathCommand::LineTo(points[i])
            },
    )
}

impl PathElement {
    /// The steps that draw this path.
    pub fn commands(&self) -> (commands: Vec<PathCommand>)
        ensures
            commands@ == polyline(self.points@),
    {
        let mut commands: Vec<PathCommand> = Vec::new();
        let mut i: usize = 0;
        while i < self.points.len()
            invariant
                i <= self.points.len(),
                commands@ == polyline(self.points@.take(i as int)),
            decreases self.points.len() - i,
        {
            let point = self.points[i];
            if i == 0 {
                commands.push(PathCommand::MoveTo(point));
            } else {
                commands.push(PathCommand::LineTo(point));
            }
            i += 1;
        }
        assert(self.points@.take(i as int) == self.points@);
        commands
    }
}

/// A container of elements. `stroke`, when present, replaces the document's
/// line colour for every descendant that names none of its own.
#[derive(Debug, PartialEq, Eq)]
pub struct GroupElement {
    pub id: i64,
    pub stroke: Option<String>,
    pub children: Vec<StyledElement>,
}

/// A node of the drawing: a path is a leaf, a group owns its children.
#[derive(Debug, PartialEq, Eq)]
pub enum StyledElement {
    Path(PathElement),
    Group(GroupElement),
}

/// The mathematical content of a [`PathElement`].
pub struct PathView {
    pub id: i64,
    pub stroke: Option<Seq<char>>,
    pub fill: Fill,
    pub points: Seq<GeoPoint>,
}

/// The mathematical content of a [`GroupElement`].
pub struct GroupView {
    pub id: i64,
    pub stroke: Option<Seq<char>>,
    pub children: Seq<ElementView>,
}

/// The mathematical content of a [`StyledElement`].
pub enum ElementView {
    Path(PathView),
    Group(GroupView),
}

impl View for PathElement {
    type V = PathView;

    open spec fn view(&self) -> PathView {
        PathView {
            id: self.id,
            stroke: option_string_view(self.stroke),
            fill: self.fill,
            points: self.points@,
        }
    }
}

/// The content of a group, children included.
pub open spec fn group_view(g: GroupElement) -> GroupView
    decreases g,
{
    GroupView {
        id: g.id,
        stroke: option_string_view(g.stroke),
        children: elements_view(g.children@),
    }
}

/// The content of an element, descendants included.
pub open spec fn element_view(e: StyledElement) -> ElementView
    decreases e,
{
    match e {
        StyledElement::Path(p) => ElementView::Path(p@),
        StyledElement::Group(g) => ElementView::Group(group_view(g)),
    }
}

impl View for GroupElement {
    type V = GroupView;

    open spec fn view(&self) -> GroupView {
        group_view(*self)
    }
}

impl View for StyledElement {
    type V = ElementView;

    open spec fn view(&self) -> ElementView {
        element_view(*self)
    }
}

/// The contents of a list of elements, in order.
pub open spec fn elements_view(elements: Seq<StyledElement>) -> Seq<ElementView>
    decreases elements,
{
    if elements.len() == 0 {
        Seq::empty()
    } else {
        elements_view(elements.drop_last()).push(element_view(elements.last()))
    }
}

/// Every point of an element's paths, in drawing order.
pub open spec fn element_points(e: ElementView) -> Seq<GeoPoint>
    decreases e,
{
    match e {
        ElementView::Path(p) => p.points,
        ElementView::Group(g) => elements_points(g.children),
    }
}

/// Every point of the paths under a list of elements, in drawing order.
pub open spec fn elements_points(elements: Seq<ElementView>) -> Seq<GeoPoint>
    decreases elements,
{
    if elements.len() == 0 {
        Seq::empty()
    } else {
        elements_points(elements.drop_last()) + element_points(elements.last())
    }
}

/// Adding an element to a list adds its content to the list's content.
pub proof fn lemma_elements_view_push(elements: Seq<StyledElement>, element: StyledElement)
    ensures
        elements_view(elements.push(element)) == elements_view(elements).push(
            element_view(element),
        ),
{
    assert(elements.push(element).drop_last() =~= elements);
}

/// Adding an element to a list adds its points after the list's points.
pub proof fn lemma_elements_points_push(elements: Seq<ElementView>, element: ElementView)
    ensures
        elements_points(elements.push(element)) == elements_points(elements) + element_points(
            element,
        ),
{
    assert(elements.push(element).drop_last() =~= elements);
}

} // verus!
