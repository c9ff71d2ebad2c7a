use render3d::clip::{plan_triangle_clip, ClipVertex, PlannedTriangle};

#[test]
fn no_corner_inside_drops_the_triangle() {
    let plan = plan_triangle_clip(false, false, false);
    assert!(!plan.is_original);
    assert_eq!(plan.count, 0);
    assert!(plan.triangles.is_empty());
}

#[test]
fn all_corners_inside_keeps_the_triangle() {
    let plan = plan_triangle_clip(true, true, true);
    assert!(plan.is_original);
    assert_eq!(plan.count, 1);
    assert!(plan.triangles.is_empty());
}

#[test]
fn one_corner_inside_gives_one_triangle() {
    let plan = plan_triangle_clip(false, true, false);
    assert!(!plan.is_original);
    assert_eq!(plan.count, 1);
    assert_eq!(
        plan.triangles,
        vec![PlannedTriangle {
            a: ClipVertex::Kept(1),
            b: ClipVertex::Cut(1, 0),
            c: ClipVertex::Cut(1, 2),
            color: 0xff00ff,
        }]
    );
}

#[test]
fn two_corners_inside_give_two_triangles() {
    let plan = plan_triangle_clip(true, false, true);
    assert!(!plan.is_original);
    assert_eq!(plan.count, 2);
    assert_eq!(
        plan.triangles,
        vec![
            PlannedTriangle {
                a: ClipVertex::Kept(0),
                b: ClipVertex::Kept(2),
                c: ClipVertex::Cut(0, 1),
                color: 0x00ff00,
            },
            PlannedTriangle {
                a: ClipVertex::Kept(2),
                b: ClipVertex::Cut(0, 1),
                c: ClipVertex::Cut(2, 1),
                color: 0xff0000,
            },
        ]
    );
}

fn inside(flags: [bool; 3], v: ClipVertex) -> bool {
    match v {
        ClipVertex::Kept(k) => flags[k],
        ClipVertex::Cut(i, o) => flags[i] && !flags[o],
    }
}

#[test]
fn clipped_triangles_only_use_inside_corners() {
    for bits in 0..8u8 {
        let flags = [bits & 1 != 0, bits & 2 != 0, bits & 4 != 0];
        let plan = plan_triangle_clip(flags[0], flags[1], flags[2]);
        let n_inside = flags.iter().filter(|b| **b).count() as i32;
        assert!(plan.count <= 2);
        assert_eq!(plan.count == 0, n_inside == 0);
        if !plan.is_original {
            assert_eq!(plan.triangles.len() as i32, plan.count);
        }
        for t in &plan.triangles {
            assert!(inside(flags, t.a) && inside(flags, t.b) && inside(flags, t.c));
        }
    }
}
