//! Geographic coordinates and the rectangle that grows around them.

use vstd::prelude::*;

verus! {

/// A geographic coordinate in units of 10⁻⁷ degrees, the resolution at which
/// OpenStreetMap stores node positions.
#[derive(Clone, Copy, Debug, PartialEq, Eq, Structural)]
pub struct GeoPoint {
    pub decimicro_lat: i32,
    pub decimicro_lon: i32,
}

/// An axis-aligned rectangle in latitude/longitude space, both ends included.
#[derive(Clone, Copy, Debug, PartialEq, Eq, Structural)]
pub struct Rect {
    pub lat_start: i32,
    pub lat_end: i32,
    pub lon_start: i32,
    pub lon_end: i32,
}

impl Rect {
    /// Neither range is reversed.
    pub open spec fn ordered(self) -> bool {
        self.lat_start <= self.lat_end && self.lon_start <= self.lon_end
    }

    /// The point lies inside the rectangle or on its border.
    pub open spec fn contains(self, p: GeoPoint) -> bool {
        &&& self.lat_start <= p.decimicro_lat <= self.lat_end
        &&& self.lon_start <= p.decimicro_lon <= self.lon_end
    }

    /// Every point of `inner` is a point of `self`.
    pub open spec fn encloses(self, inner: Rect) -> bool {
        &&& self.lat_start <= inner.lat_start
        &&& inner.lat_end <= self.lat_end
        &&& self.lon_start <= inner.lon_start
        &&& inner.lon_end <= self.lon_end
    }

    /// The rectangle of zero width and height at `p`.
    pub open spec fn at(p: GeoPoint) -> Rect {
        Rect {
            lat_start: p.decimicro_lat,
            lat_end: p.decimicro_lat,
            lon_start: p.decimicro_lon,
            lon_end: p.decimicro_lon,
        }
    }
}

/// The smaller of two coordinates.
pub open spec fn min_i32(a: i32, b: i32) -> i32 {
    if a <= b {
        a
    } else {
        b
    }
}

/// The larger of two coordinates.
pub open spec fn max_i32(a: i32, b: i32) -> i32 {
    if a >= b {
        a
    } else {
        b
    }
}

/// The extent `extent` after one more point has been observed: the point
/// itself if nothing was observed before, else the old rectangle stretched
/// just far enough to reach the point.
pub open spec fn widen(extent: Option<Rect>, p: GeoPoint) -> Option<Rect> {
    match extent {
        None => Some(Rect::at(p)),
        Some(r) => Some(
            Rect {
                lat_start: min_i32(r.lat_start, p.decimicro_lat),
                lat_end: max_i32(r.lat_end, p.decimicro_lat),
                lon_start: min_i32(r.lon_start, p.decimicro_lon),
                lon_end: max_i32(r.lon_end, p.decimicro_lon),
            },
        ),
    }
}

/// The extent after observing all of `points`, first to last.
pub open spec fn widen_all(extent: Option<Rect>, points: Seq<GeoPoint>) -> Option<Rect>
    decreases points.len(),
{
    if points.len() == 0 {
        extent
    } else {
        widen(widen_all(extent, points.drop_last()), points.last())
    }
}

/// Observing `first` and then `second` is observing their concatenation.
pub proof fn lemma_widen_all_concat(
    extent: Option<Rect>,
    first: Seq<GeoPoint>,
    second: Seq<GeoPoint>,
)
    ensures
        widen_all(extent, first + second) == widen_all(widen_all(extent, first), second),
    decreases second.len(),
{
    if second.len() == 0 {
        assert(first + second =~= first);
    } else {
        lemma_widen_all_concat(extent, first, second.drop_last());
        assert((first + second).drop_last() =~= first + second.drop_last());
    }
}

/// Observing a point never empties an extent, and never reverses a range.
pub proof fn lemma_widen_ordered(extent: Option<Rect>, p: GeoPoint)
    requires
        extent matches Some(r) ==> r.ordered(),
    ensures
        widen(extent, p) matches Some(r) && r.ordered(),
{
}

/// The first point observed collapses both ranges onto that point: the
/// rectangle has zero width and zero height, and it is there.
pub proof fn lemma_first_point(p: GeoPoint)
    ensures
        widen(None, p) == Some(Rect::at(p)),
        widen_all(None, seq![p]) == Some(Rect::at(p)),
        Rect::at(p).lat_start == p.decimicro_lat == Rect::at(p).lat_end,
        Rect::at(p).lon_start == p.decimicro_lon == Rect::at(p).lon_end,
{
    assert(seq![p].drop_last() =~= Seq::<GeoPoint>::empty());
    assert(widen_all(None, seq![p].drop_last()) == None::<Rect>);
}

/// `outer` reaches at least as far as `extent` does.
pub open spec fn covers(outer: Rect, extent: Option<Rect>) -> bool {
    extent matches Some(r) ==> outer.encloses(r)
}

/// After observing `points`, the extent is a rectangle that contains each
/// of them and all of what was covered before, and it is the smallest such
/// rectangle: every rectangle that does the same encloses it. Starting from
/// the empty extent, it is the smallest rectangle around the points.
pub proof fn lemma_widen_all_smallest(extent: Option<Rect>, points: Seq<GeoPoint>)
    requires
        extent matches Some(r) ==> r.ordered(),
    ensures
        points.len() == 0 ==> widen_all(extent, points) == extent,
        points.len() > 0 ==> widen_all(extent, points) is Some,
        widen_all(extent, points) matches Some(hull) ==> {
            &&& hull.ordered()
            &&& covers(hull, extent)
            &&& forall|i: int| 0 <= i < points.len() ==> hull.contains(#[trigger] points[i])
            &&& forall|other: Rect|
                covers(other, extent) && (forall|i: int|
                    0 <= i < points.len() ==> other.contains(#[trigger] points[i]))
                    ==> #[trigger] other.encloses(hull)
        },
    decreases points.len(),
{
    if points.len() > 0 {
        let earlier = points.drop_last();
        lemma_widen_all_smallest(extent, earlier);
        let before = widen_all(extent, earlier);
        let hull = widen_all(extent, points)->0;
        assert forall|i: int| 0 <= i < points.len() implies hull.contains(
            #[trigger] points[i],
        ) by {
            if i < earlier.len() {
                assert(earlier[i] == points[i]);
            }
        }
        assert forall|other: Rect|
            covers(other, extent) && (forall|i: int|
                0 <= i < points.len() ==> other.contains(#[trigger] points[i]))
                implies #[trigger] other.encloses(hull) by {
            assert(other.contains(points[points.len() - 1]));
            assert forall|i: int| 0 <= i < earlier.len() implies other.contains(
                #[trigger] earlier[i],
            ) by {
                assert(earlier[i] == points[i]);
            }
            if before is Some {
                assert(other.encloses(before->0));
            }
        }
    }
}

/// The geographic extent of everything drawn so far. It is either empty or a
/// rectangle whose ranges are not reversed; the empty state is distinct from
/// a rectangle collapsed onto the point (0, 0).
#[derive(Clone, Copy, Debug)]
pub struct Bound {
    rect: Option<Rect>,
}

impl View for Bound {
    type V = Option<Rect>;

    closed spec fn view(&self) -> Option<Rect> {
        self.rect
    }
}

impl Bound {
    #[verifier::type_invariant]
    spec fn ranges_ordered(self) -> bool {
        self.rect matches Some(r) ==> r.ordered()
    }

    /// The extent before any point has been observed.
    pub fn new() -> (bound: Bound)
        ensures
            bound@ is None,
    {
        Bound { rect: None }
    }

    /// Whether no point has been observed yet.
    pub fn is_empty(&self) -> (empty: bool)
        ensures
            empty == (self@ is None),
    {
        self.rect.is_none()
    }

    /// The rectangle covered so far, if any point has been observed.
    pub fn rect(&self) -> (rect: Option<Rect>)
        ensures
            rect == self@,
            rect matches Some(r) ==> r.ordered(),
    {
        proof {
            use_type_invariant(self);
        }
        self.rect
    }

    /// Widens the extent just enough to include `p`. Afterwards the extent
    /// is not empty, and neither of its ranges is reversed.
    pub fn update(&mut self, p: GeoPoint)
        ensures
            final(self)@ == widen(old(self)@, p),
            final(self)@ matches Some(r) && r.ordered() && r.contains(p),
    {
        proof {
            use_type_invariant(&*self);
        }
        let rect = match self.rect {
            None => Rect {
                lat_start: p.decimicro_lat,
                lat_end: p.decimicro_lat,
                lon_start: p.decimicro_lon,
                lon_end: p.decimicro_lon,
            },
            Some(r) => Rect {
                lat_start: if r.lat_start <= p.decimicro_lat {
                    r.lat_start
                } else {
                    p.decimicro_lat
                },
                lat_end: if r.lat_end >= p.decimicro_lat {
                    r.lat_end
                } else {
                    p.decimicro_lat
                },
                lon_start: if r.lon_start <= p.decimicro_lon {
                    r.lon_start
                } else {
                    p.decimicro_lon
                },
                lon_end: if r.lon_end >= p.decimicro_lon {
                    r.lon_end
                } else {
                    p.decimicro_lon
                },
            },
        };
        self.rect = Some(rect);
    }
}

} // verus!
