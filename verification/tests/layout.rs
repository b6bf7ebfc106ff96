use hyprresume::layout::dwindle::{
    collect_pixel_ratio_steps, collect_splitratio_steps, infer_bsp, plan_from_bsp, BspNode,
    PreselDir, SplitDir,
};
use hyprresume::layout::master::{self, MasterOrientation};
use hyprresume::layout::{
    bounding_rect, extract_indexed, flat, geometry_in_range, infer_gap_from_geometry,
    partition_at, ranges_overlap, split_bounds, split_candidates, IndexedWindow, Ratio, Rect,
};
use hyprresume::models::WindowEntry;

#[test]
fn bounding_rect_basic() {
    let a = WindowEntry {
        app_id: "a".into(),
        launch_cmd: "a".into(),
        workspace: "1".into(),
        monitor: None,
        floating: false,
        fullscreen: false,
        position: Some((10, 20)),
        size: Some((100, 200)),
        cwd: None,
        profile: None,
    };
    let refs = vec![&a];
    let r = bounding_rect(&refs).unwrap();
    assert_eq!(
        r,
        Rect {
            x: 10,
            y: 20,
            w: 100,
            h: 200
        }
    );
}

#[test]
fn bounding_rect_missing_returns_none() {
    let a = WindowEntry {
        app_id: "a".into(),
        launch_cmd: "a".into(),
        workspace: "1".into(),
        monitor: None,
        floating: false,
        fullscreen: false,
        position: None,
        size: None,
        cwd: None,
        profile: None,
    };
    assert!(bounding_rect(&[&a]).is_none());
}

fn placed(x: i32, y: i32, w: i32, h: i32) -> WindowEntry {
    WindowEntry {
        app_id: "a".into(),
        launch_cmd: "a".into(),
        workspace: "1".into(),
        monitor: None,
        floating: false,
        fullscreen: false,
        position: Some((x, y)),
        size: Some((w, h)),
        cwd: None,
        profile: None,
    }
}

fn window(idx: usize, x: i32, y: i32, w: i32, h: i32) -> IndexedWindow {
    IndexedWindow { idx, x, y, w, h }
}

fn leaves(node: &BspNode) -> Vec<usize> {
    match node {
        BspNode::Leaf { idx } => vec![*idx],
        BspNode::Split { first, second, .. } => {
            let mut all = leaves(first);
            all.extend(leaves(second));
            all
        }
    }
}

fn splits(node: &BspNode) -> usize {
    leaves(node).len() - 1
}

fn grid() -> Vec<IndexedWindow> {
    vec![
        window(0, 0, 0, 900, 500),
        window(1, 0, 510, 900, 490),
        window(2, 910, 0, 690, 300),
        window(3, 910, 310, 690, 690),
    ]
}

const GRID_BOUNDS: Rect = Rect {
    x: 0,
    y: 0,
    w: 1600,
    h: 1000,
};

#[test]
fn bounding_rect_is_tight() {
    let a = placed(-10, 5, 20, 30);
    let b = placed(40, -7, 5, 100);
    assert_eq!(
        bounding_rect(&[&a, &b]),
        Some(Rect {
            x: -10,
            y: -7,
            w: 55,
            h: 100
        })
    );
}

#[test]
fn bounding_rect_of_nothing_or_of_no_area() {
    assert_eq!(bounding_rect(&[]), None);
    let flat = placed(3, 4, 0, 10);
    assert_eq!(bounding_rect(&[&flat]), None);
}

#[test]
fn split_bounds_makes_two_parts_of_the_whole() {
    let bounds = Rect {
        x: 10,
        y: 20,
        w: 100,
        h: 50,
    };
    let (left, right) = split_bounds(bounds, true, 40);
    assert_eq!(
        left,
        Rect {
            x: 10,
            y: 20,
            w: 30,
            h: 50
        }
    );
    assert_eq!(
        right,
        Rect {
            x: 40,
            y: 20,
            w: 70,
            h: 50
        }
    );
    let (top, bottom) = split_bounds(bounds, false, 30);
    assert_eq!(
        top,
        Rect {
            x: 10,
            y: 20,
            w: 100,
            h: 10
        }
    );
    assert_eq!(
        bottom,
        Rect {
            x: 10,
            y: 30,
            w: 100,
            h: 40
        }
    );
}

#[test]
fn ranges_that_touch_do_not_overlap() {
    assert!(ranges_overlap(0, 10, 9, 20));
    assert!(!ranges_overlap(0, 10, 10, 20));
    assert!(!ranges_overlap(10, 20, 0, 10));
}

#[test]
fn gap_is_measured_between_adjacent_windows() {
    assert_eq!(infer_gap_from_geometry(&[]), 0);
    assert_eq!(infer_gap_from_geometry(&[window(0, 0, 0, 10, 10)]), 0);
    assert_eq!(infer_gap_from_geometry(&grid()), 10);
    // Side by side without a gap, and not facing each other at all.
    assert_eq!(
        infer_gap_from_geometry(&[window(0, 0, 0, 10, 10), window(1, 10, 0, 10, 10)]),
        0
    );
    assert_eq!(
        infer_gap_from_geometry(&[window(0, 0, 0, 10, 10), window(1, 50, 50, 10, 10)]),
        0
    );
    // The outer two of three columns are not adjacent.
    let columns = [
        window(0, 0, 0, 100, 500),
        window(1, 122, 0, 100, 500),
        window(2, 244, 0, 100, 500),
    ];
    assert_eq!(infer_gap_from_geometry(&columns), 22);
    // Nothing stands between these two, however far apart they are.
    assert_eq!(
        infer_gap_from_geometry(&[columns[0], columns[2]]),
        144
    );
    // A window beside the space between them does not separate them.
    let aside = window(3, 122, 600, 100, 100);
    assert_eq!(
        infer_gap_from_geometry(&[columns[0], columns[2], aside]),
        144
    );
}

#[test]
fn candidates_are_edges_and_midpoints_of_gaps() {
    let pair = [window(0, 0, 0, 955, 10), window(1, 965, 0, 955, 10)];
    assert_eq!(
        split_candidates(&pair, true, 14),
        vec![0, 955, 960, 965, 1920]
    );
    assert_eq!(split_candidates(&pair, true, 9), vec![0, 955, 965, 1920]);
    // A gap of the height of the windows themselves counts too.
    assert_eq!(split_candidates(&pair, false, 14), vec![0, 5, 10]);
}

#[test]
fn partition_keeps_every_window() {
    let parts = partition_at(&grid(), true, 0, 905).unwrap();
    assert_eq!(parts, (vec![0, 1], vec![2, 3]));
    assert_eq!(partition_at(&grid(), false, 0, 505), None);
    assert_eq!(partition_at(&grid(), true, 0, 1600), None);
    let loose = partition_at(&grid(), false, 200, 505).unwrap();
    assert_eq!(loose, (vec![0, 2], vec![1, 3]));
}

#[test]
fn indices_are_paired_with_windows_in_order() {
    let a = placed(1, 2, 3, 4);
    let b = placed(5, 6, 7, 8);
    assert_eq!(
        extract_indexed(&[&a, &b], &[9, 4]),
        Some(vec![window(9, 1, 2, 3, 4), window(4, 5, 6, 7, 8)])
    );
    let mut lost = placed(0, 0, 1, 1);
    lost.size = None;
    assert_eq!(extract_indexed(&[&a, &lost], &[0, 1]), None);
}

#[test]
fn geometry_beyond_the_numbers_is_told() {
    let a = placed(0, 0, 10, 10);
    let far = placed(i32::MAX, 0, 10, 10);
    assert!(geometry_in_range(&[&a], &[0]));
    assert!(!geometry_in_range(&[&a, &far], &[0, 1]));
}

#[test]
fn tree_has_every_window_and_corrects_every_split() {
    let tree = infer_bsp(&grid(), GRID_BOUNDS).unwrap();
    let mut found = leaves(&tree);
    found.sort();
    assert_eq!(found, vec![0, 1, 2, 3]);
    let ratios = collect_splitratio_steps(&tree);
    let pixels = collect_pixel_ratio_steps(&tree);
    assert_eq!(ratios.len() + pixels.len(), splits(&tree));
    assert_eq!(plan_from_bsp(&tree).len(), splits(&tree) + 1);
    for step in &ratios {
        assert!(0 < step.ratio.part && step.ratio.part < step.ratio.whole);
    }
}

#[test]
fn plan_opens_every_window_once_beside_an_open_one() {
    let tree = infer_bsp(&grid(), GRID_BOUNDS).unwrap();
    let steps = plan_from_bsp(&tree);
    let mut open: Vec<usize> = vec![];
    for (k, step) in steps.iter().enumerate() {
        assert_eq!(step.focus_idx.is_some(), k > 0);
        assert_eq!(step.preselect.is_some(), k > 0);
        if let Some(focus) = step.focus_idx {
            assert!(open.contains(&focus));
        }
        assert!(!open.contains(&step.window_idx));
        open.push(step.window_idx);
    }
    assert_eq!(open.len(), 4);
}

#[test]
fn tree_ignores_the_order_of_the_windows() {
    let forward = grid();
    let mut backward = grid();
    backward.reverse();
    let a = infer_bsp(&forward, GRID_BOUNDS).unwrap();
    let b = infer_bsp(&backward, GRID_BOUNDS).unwrap();
    assert_eq!(format!("{a:?}"), format!("{b:?}"));
}

#[test]
fn depth_first_plan_opens_the_leaves_in_order() {
    let tree = infer_bsp(&grid(), GRID_BOUNDS).unwrap();
    let opened: Vec<usize> = flat::plan_from_bsp(&tree)
        .iter()
        .map(|s| s.window_idx)
        .collect();
    assert_eq!(opened, leaves(&tree));
}

#[test]
fn flat_inference_tolerates_no_overlap() {
    let overlapping = [window(0, 0, 0, 600, 10), window(1, 599, 0, 401, 10)];
    let pair = [window(0, 0, 0, 600, 10), window(1, 600, 0, 400, 10)];
    let bounds = Rect {
        x: 0,
        y: 0,
        w: 1000,
        h: 10,
    };
    assert!(flat::infer_bsp(&overlapping, bounds).is_none());
    assert!(infer_bsp(&overlapping, bounds).is_some());
    match flat::infer_bsp(&pair, bounds) {
        Some(BspNode::Split { dir, ratio, .. }) => {
            assert_eq!(dir, SplitDir::Horizontal);
            assert_eq!(
                ratio,
                Ratio {
                    part: 600,
                    whole: 1000
                }
            );
        }
        other => panic!("expected a split, got {other:?}"),
    }
}

#[test]
fn windows_in_a_pinwheel_have_no_tree() {
    let pinwheel = [
        window(0, 0, 0, 200, 100),
        window(1, 200, 0, 100, 200),
        window(2, 100, 200, 200, 100),
        window(3, 0, 100, 100, 200),
        window(4, 100, 100, 100, 100),
    ];
    let bounds = Rect {
        x: 0,
        y: 0,
        w: 300,
        h: 300,
    };
    assert!(infer_bsp(&pinwheel, bounds).is_none());
}

#[test]
fn master_plan_is_balanced() {
    let a = placed(0, 0, 1728, 1080);
    let b = placed(1728, 0, 192, 540);
    let c = placed(1728, 540, 192, 540);
    let plan = master::build_workspace_plan(&[&a, &b, &c], &[5, 6, 7]).unwrap();
    assert_eq!(plan.master_indices, vec![5]);
    let mut stack = plan.stack_indices.clone();
    stack.sort();
    assert_eq!(stack, vec![6, 7]);
    assert_eq!(
        10 * i64::from(plan.mfact.part),
        9 * i64::from(plan.mfact.whole)
    );
    // A larger share is none that the layout accepts.
    let wide = placed(0, 0, 1729, 1080);
    let narrow = placed(1729, 0, 191, 1080);
    assert!(master::build_workspace_plan(&[&wide, &narrow], &[0, 1]).is_none());
}

#[test]
fn side_with_fewer_windows_is_the_master_area() {
    let a = placed(0, 0, 768, 540);
    let b = placed(0, 540, 768, 540);
    let c = placed(768, 0, 1152, 1080);
    let plan = master::build_workspace_plan(&[&a, &b, &c], &[0, 1, 2]).unwrap();
    assert_eq!(plan.orientation, MasterOrientation::Right);
    assert_eq!(plan.master_indices, vec![2]);
    assert_eq!(plan.stack_indices, vec![0, 1]);
    assert_eq!(
        plan.mfact,
        Ratio {
            part: 1152,
            whole: 1920
        }
    );
    // In a tie it is the left one.
    let d = placed(768, 0, 1152, 540);
    let e = placed(768, 540, 1152, 540);
    let even = master::build_workspace_plan(&[&a, &b, &d, &e], &[0, 1, 2, 3]).unwrap();
    assert_eq!(even.orientation, MasterOrientation::Left);
    assert_eq!(even.master_indices, vec![0, 1]);
    assert_eq!(even.stack_indices, vec![2, 3]);
}

#[test]
fn names_of_directions() {
    assert_eq!(PreselDir::Right.to_string(), "r");
    assert_eq!(PreselDir::Bottom.to_string(), "d");
    assert_eq!(MasterOrientation::Left.to_string(), "left");
    assert_eq!(MasterOrientation::Right.to_string(), "right");
    assert_eq!(MasterOrientation::Top.to_string(), "top");
    assert_eq!(MasterOrientation::Bottom.to_string(), "bottom");
}
