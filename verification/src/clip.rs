//! The decision table of clipping a triangle against a plane.
//!
//! Which corners of a triangle lie on the inner side of the plane decides
//! everything about the clip except the coordinates of the points where the
//! edges cross the plane: whether the triangle is kept whole, how many
//! triangles come out, which corners they keep, which edges they cut, and the
//! colours they are marked with.
use vstd::prelude::*;

verus! {

/// A corner of a clipped triangle.
#[derive(PartialEq, Eq, Structural, Clone, Copy, Debug)]
pub enum ClipVertex {
    /// The input corner with this index, kept as it is.
    Kept(usize),
    /// The point where the edge from the inner corner (first index) to the
    /// outer corner (second index) crosses the plane.
    Cut(usize, usize),
}

/// A triangle that clipping produces: its three corners and its colour.
#[derive(PartialEq, Eq, Structural, Clone, Copy, Debug)]
pub struct PlannedTriangle {
    pub a: ClipVertex,
    pub b: ClipVertex,
    pub c: ClipVertex,
    pub color: i32,
}

/// Colour given to the one triangle left when a single corner is inside.
pub const ONE_INSIDE_COLOR: i32 = 0xff00ff;

/// Colour given to the first of the two triangles left when two corners are inside.
pub const TWO_INSIDE_FIRST_COLOR: i32 = 0x00ff00;

/// Colour given to the second of the two triangles left when two corners are inside.
pub const TWO_INSIDE_SECOND_COLOR: i32 = 0xff0000;

/// What clipping a triangle does.
pub struct ClipPlan {
    /// The input triangle is kept whole (all corners inside).
    pub is_original: bool,
    /// How many triangles the clip yields (the whole input counts as one).
    pub count: i32,
    /// The new triangles, when the input is neither kept whole nor dropped.
    pub triangles: Vec<PlannedTriangle>,
}

/// The corner indices among `0, 1, 2` whose flag equals `side`, in order.
pub open spec fn corners_on(ins: (bool, bool, bool), side: bool) -> Seq<usize> {
    let s0: Seq<usize> = if ins.0 == side { seq![0usize] } else { seq![] };
    let s1: Seq<usize> = if ins.1 == side { seq![1usize] } else { seq![] };
    let s2: Seq<usize> = if ins.2 == side { seq![2usize] } else { seq![] };
    s0 + s1 + s2
}

/// The corners on the inner side, in order.
pub open spec fn inside_corners(ins: (bool, bool, bool)) -> Seq<usize> {
    corners_on(ins, true)
}

/// The corners on the outer side, in order.
pub open spec fn outside_corners(ins: (bool, bool, bool)) -> Seq<usize> {
    corners_on(ins, false)
}

/// The triangles that clipping yields when one or two corners are inside.
pub open spec fn planned_triangles(ins: (bool, bool, bool)) -> Seq<PlannedTriangle> {
    let i = inside_corners(ins);
    let o = outside_corners(ins);
    if i.len() == 1 {
        seq![
            PlannedTriangle {
                a: ClipVertex::Kept(i[0]),
                b: ClipVertex::Cut(i[0], o[0]),
                c: ClipVertex::Cut(i[0], o[1]),
                color: ONE_INSIDE_COLOR,
            },
        ]
    } else if i.len() == 2 {
        seq![
            PlannedTriangle {
                a: ClipVertex::Kept(i[0]),
                b: ClipVertex::Kept(i[1]),
                c: ClipVertex::Cut(i[0], o[0]),
                color: TWO_INSIDE_FIRST_COLOR,
            },
            PlannedTriangle {
                a: ClipVertex::Kept(i[1]),
                b: ClipVertex::Cut(i[0], o[0]),
                c: ClipVertex::Cut(i[1], o[0]),
                color: TWO_INSIDE_SECOND_COLOR,
            },
        ]
    } else {
        seq![]
    }
}

/// The number of triangles that clipping yields.
pub open spec fn planned_count(ins: (bool, bool, bool)) -> int {
    let n = inside_corners(ins).len();
    if n == 0 {
        0
    } else if n == 3 {
        1
    } else {
        n as int
    }
}

/// Plans the clip of a triangle against a plane, given for each corner
/// whether it lies on the inner side (its signed distance is at least 0).
/// No corner inside: nothing is left. All inside: the triangle is kept
/// whole. One inside: one triangle, made of that corner and the two points
/// where its edges cross the plane. Two inside: two triangles that cover the
/// quadrilateral that is left.
pub fn plan_triangle_clip(in0: bool, in1: bool, in2: bool) -> (res: ClipPlan)
    ensures
        res.is_original == (in0 && in1 && in2),
        res.count as int == planned_count((in0, in1, in2)),
        res.triangles@ == planned_triangles((in0, in1, in2)),
{
    let mut inside: Vec<usize> = Vec::new();
    let mut outside: Vec<usize> = Vec::new();
    if in0 {
        inside.push(0);
    } else {
        outside.push(0);
    }
    if in1 {
        inside.push(1);
    } else {
        outside.push(1);
    }
    if in2 {
        inside.push(2);
    } else {
        outside.push(2);
    }
    let ghost ins = (in0, in1, in2);
    assert(inside@ =~= inside_corners(ins));
    assert(outside@ =~= outside_corners(ins));
    let n_inside = inside.len();
    if n_inside == 0 {
        return ClipPlan { is_original: false, count: 0, triangles: Vec::new() };
    }
    if n_inside == 3 {
        return ClipPlan { is_original: true, count: 1, triangles: Vec::new() };
    }
    let mut triangles: Vec<PlannedTriangle> = Vec::new();
    if n_inside == 1 {
        triangles.push(
            PlannedTriangle {
                a: ClipVertex::Kept(inside[0]),
                b: ClipVertex::Cut(inside[0], outside[0]),
                c: ClipVertex::Cut(inside[0], outside[1]),
                color: ONE_INSIDE_COLOR,
            },
        );
        assert(triangles@ =~= planned_triangles(ins));
        return ClipPlan { is_original: false, count: 1, triangles };
    }
    triangles.push(
        PlannedTriangle {
            a: ClipVertex::Kept(inside[0]),
            b: ClipVertex::Kept(inside[1]),
            c: ClipVertex::Cut(inside[0], outside[0]),
            color: TWO_INSIDE_FIRST_COLOR,
        },
    );
    triangles.push(
        PlannedTriangle {
            a: ClipVertex::Kept(inside[1]),
            b: ClipVertex::Cut(inside[0], outside[0]),
            c: ClipVertex::Cut(inside[1], outside[0]),
            color: TWO_INSIDE_SECOND_COLOR,
        },
    );
    assert(triangles@ =~= planned_triangles(ins));
    ClipPlan { is_original: false, count: 2, triangles }
}

/// A corner of a clipped triangle lies on the inner side of the plane: it
/// is a kept corner that is inside, or a cut of an edge that runs from an
/// inside corner to an outside one.
pub open spec fn corner_is_inside(ins: (bool, bool, bool), v: ClipVertex) -> bool {
    match v {
        ClipVertex::Kept(k) => inside_corners(ins).contains(k),
        ClipVertex::Cut(i, o) => inside_corners(ins).contains(i) && outside_corners(ins).contains(o),
    }
}

/// Clipping never keeps a corner that lies outside: every corner of every
/// triangle it yields is an inside corner or a point on an edge that crosses
/// the plane.
pub proof fn lemma_clip_keeps_only_inside(ins: (bool, bool, bool))
    ensures
        forall|t: int|
            0 <= t < planned_triangles(ins).len() ==> {
                &&& corner_is_inside(ins, #[trigger] planned_triangles(ins)[t].a)
                &&& corner_is_inside(ins, planned_triangles(ins)[t].b)
                &&& corner_is_inside(ins, planned_triangles(ins)[t].c)
            },
{
    let i = inside_corners(ins);
    let o = outside_corners(ins);
    assert(i.len() >= 1 ==> i.contains(i[0]));
    assert(i.len() >= 2 ==> i.contains(i[1]));
    assert(o.len() >= 1 ==> o.contains(o[0]));
    assert(o.len() >= 2 ==> o.contains(o[1]));
}

/// The inside and the outside corners split `0, 1, 2` between them: each
/// corner is on exactly one side, and there are three in all.
pub proof fn lemma_clip_sides_partition(ins: (bool, bool, bool))
    ensures
        inside_corners(ins).len() + outside_corners(ins).len() == 3,
        forall|k: usize|
            k < 3 ==> (inside_corners(ins).contains(k) != outside_corners(ins).contains(k)),
{
    assert forall|k: usize| k < 3 implies (inside_corners(ins).contains(k) != outside_corners(ins).contains(k)) by {
        let i = inside_corners(ins);
        let o = outside_corners(ins);
        if k == 0 {
            if ins.0 { assert(i[0] == 0); } else { assert(o[0] == 0); }
        } else if k == 1 {
            let at: int = if ins.0 == ins.1 { 1 } else { 0 };
            if ins.1 { assert(i[at] == 1); } else { assert(o[at] == 1); }
        } else {
            if ins.2 { assert(i[i.len() - 1] == 2); } else { assert(o[o.len() - 1] == 2); }
        }
    }
}

/// A clip yields at most two triangles; it yields none exactly when no
/// corner is inside; and unless the triangle is kept whole, the planned
/// triangles are exactly the ones counted.
pub proof fn lemma_clip_count(ins: (bool, bool, bool))
    ensures
        0 <= planned_count(ins) <= 2,
        planned_count(ins) == 0 <==> !(ins.0 || ins.1 || ins.2),
        !(ins.0 && ins.1 && ins.2) ==> planned_triangles(ins).len() == planned_count(ins),
        (ins.0 && ins.1 && ins.2) ==> planned_count(ins) == 1 && planned_triangles(ins).len() == 0,
{
}

/// One corner `i` inside, the other two outside: one triangle comes out,
/// made of corner `i` and the cuts of its two edges towards the outside
/// corners (the lower-numbered one first), coloured 0xff00ff.
pub proof fn lemma_clip_one_inside(i: usize)
    requires
        i < 3,
    ensures
        ({
            let ins = (i == 0, i == 1, i == 2);
            let o0: usize = if i == 0 { 1 } else { 0 };
            let o1: usize = if i == 2 { 1 } else { 2 };
            &&& planned_count(ins) == 1
            &&& planned_triangles(ins) == seq![
                PlannedTriangle {
                    a: ClipVertex::Kept(i),
                    b: ClipVertex::Cut(i, o0),
                    c: ClipVertex::Cut(i, o1),
                    color: 0xff00ff,
                },
            ]
        }),
{
    let ins = (i == 0, i == 1, i == 2);
    let o0: usize = if i == 0 { 1 } else { 0 };
    let o1: usize = if i == 2 { 1 } else { 2 };
    assert(inside_corners(ins) =~= seq![i]);
    assert(outside_corners(ins) =~= seq![o0, o1]);
}

/// Two corners inside, corner `o` outside: two triangles come out that
/// together cover the quadrilateral `i0, i1, cut(i1, o), cut(i0, o)` left
/// of the triangle (`i0 < i1` the inside corners), split along the diagonal
/// from `i1` to `cut(i0, o)`: first `i0, i1, cut(i0, o)` coloured 0x00ff00,
/// then `i1, cut(i0, o), cut(i1, o)` coloured 0xff0000.
pub proof fn lemma_clip_two_inside(o: usize)
    requires
        o < 3,
    ensures
        ({
            let ins = (o != 0, o != 1, o != 2);
            let i0: usize = if o == 0 { 1 } else { 0 };
            let i1: usize = if o == 2 { 1 } else { 2 };
            &&& planned_count(ins) == 2
            &&& planned_triangles(ins) == seq![
                PlannedTriangle {
                    a: ClipVertex::Kept(i0),
                    b: ClipVertex::Kept(i1),
                    c: ClipVertex::Cut(i0, o),
                    color: 0x00ff00,
                },
                PlannedTriangle {
                    a: ClipVertex::Kept(i1),
                    b: ClipVertex::Cut(i0, o),
                    c: ClipVertex::Cut(i1, o),
                    color: 0xff0000,
                },
            ]
        }),
{
    let ins = (o != 0, o != 1, o != 2);
    let i0: usize = if o == 0 { 1 } else { 0 };
    let i1: usize = if o == 2 { 1 } else { 2 };
    assert(inside_corners(ins) =~= seq![i0, i1]);
    assert(outside_corners(ins) =~= seq![o]);
}

/// No corner inside: nothing comes out. All inside: the triangle is kept
/// whole, counted as one, and no new triangle is made.
pub proof fn lemma_clip_none_or_all()
    ensures
        planned_count((false, false, false)) == 0,
        planned_triangles((false, false, false)).len() == 0,
        planned_count((true, true, true)) == 1,
        planned_triangles((true, true, true)).len() == 0,
{
    assert(inside_corners((false, false, false)) =~= Seq::<usize>::empty());
    assert(inside_corners((true, true, true)) =~= seq![0usize, 1usize, 2usize]);
}

} // verus!
