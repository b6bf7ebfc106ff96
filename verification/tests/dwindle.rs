use hyprresume::layout::dwindle::{build_workspace_plan, infer_bsp, BspNode, PreselDir, SplitDir};
use hyprresume::layout::{bounding_rect, extract_indexed, Ratio};
use hyprresume::models::WindowEntry;

fn share(ratio: &Ratio) -> f64 {
    f64::from(ratio.part) / f64::from(ratio.whole)
}

fn make_entry(app_id: &str, ws: &str, x: i32, y: i32, w: i32, h: i32) -> WindowEntry {
    WindowEntry {
        app_id: app_id.to_string(),
        launch_cmd: app_id.to_string(),
        workspace: ws.to_string(),
        monitor: None,
        floating: false,
        fullscreen: false,
        position: Some((x, y)),
        size: Some((w, h)),
        cwd: None,
        profile: None,
    }
}

#[test]
fn dwindle_single_window_is_leaf() {
    let w = make_entry("firefox", "1", 0, 0, 1920, 1080);
    let refs = vec![&w];
    let bounds = bounding_rect(&refs).unwrap();
    let indexed = extract_indexed(&refs, &[0]).unwrap();
    let tree = infer_bsp(&indexed, bounds).unwrap();
    assert!(matches!(tree, BspNode::Leaf { .. }));
}

#[test]
fn dwindle_two_windows_horizontal_split() {
    let a = make_entry("firefox", "1", 0, 0, 960, 1080);
    let b = make_entry("code", "1", 960, 0, 960, 1080);
    let refs = vec![&a, &b];
    let bounds = bounding_rect(&refs).unwrap();
    let indexed = extract_indexed(&refs, &[0, 1]).unwrap();
    let tree = infer_bsp(&indexed, bounds).unwrap();
    match &tree {
        BspNode::Split { dir, ratio, .. } => {
            assert_eq!(*dir, SplitDir::Horizontal);
            assert!((share(ratio) - 0.5).abs() < 0.01);
        }
        BspNode::Leaf { .. } => panic!("expected split"),
    }
}

#[test]
fn dwindle_two_windows_vertical_split() {
    let a = make_entry("firefox", "1", 0, 0, 1920, 540);
    let b = make_entry("code", "1", 0, 540, 1920, 540);
    let refs = vec![&a, &b];
    let bounds = bounding_rect(&refs).unwrap();
    let indexed = extract_indexed(&refs, &[0, 1]).unwrap();
    let tree = infer_bsp(&indexed, bounds).unwrap();
    match &tree {
        BspNode::Split { dir, ratio, .. } => {
            assert_eq!(*dir, SplitDir::Vertical);
            assert!((share(ratio) - 0.5).abs() < 0.01);
        }
        BspNode::Leaf { .. } => panic!("expected split"),
    }
}

#[test]
fn dwindle_three_windows_nested() {
    //  +-------+-------+
    //  |       |   B   |
    //  |   A   +-------+
    //  |       |   C   |
    //  +-------+-------+
    let a = make_entry("a", "1", 0, 0, 960, 1080);
    let b = make_entry("b", "1", 960, 0, 960, 540);
    let c = make_entry("c", "1", 960, 540, 960, 540);
    let refs = vec![&a, &b, &c];
    let bounds = bounding_rect(&refs).unwrap();
    let indexed = extract_indexed(&refs, &[0, 1, 2]).unwrap();
    let tree = infer_bsp(&indexed, bounds).unwrap();
    match &tree {
        BspNode::Split {
            dir: SplitDir::Horizontal,
            first,
            second,
            ..
        } => {
            assert!(matches!(first.as_ref(), BspNode::Leaf { .. }));
            assert!(matches!(
                second.as_ref(),
                BspNode::Split {
                    dir: SplitDir::Vertical,
                    ..
                }
            ));
        }
        other => panic!("expected horizontal split at root, got {other:?}"),
    }
}

#[test]
fn plan_right_heavy_tree() {
    // A (left) | B (top-right) / C (bottom-right)
    let a = make_entry("a", "1", 0, 0, 960, 1080);
    let b = make_entry("b", "1", 960, 0, 960, 540);
    let c = make_entry("c", "1", 960, 540, 960, 540);
    let refs: Vec<&WindowEntry> = vec![&a, &b, &c];
    let wp = build_workspace_plan(&refs, &[0, 1, 2]).unwrap();
    assert_eq!(wp.steps.len(), 3);

    // Order: A (full), B (right of A → root H split), C (below B → nested V split)
    assert_eq!(wp.steps[0].window_idx, 0);
    assert!(wp.steps[0].focus_idx.is_none());
    assert_eq!(wp.steps[1].window_idx, 1);
    assert_eq!(wp.steps[1].focus_idx, Some(0));
    assert!(matches!(wp.steps[1].preselect, Some(PreselDir::Right)));
    assert_eq!(wp.steps[2].window_idx, 2);
    assert_eq!(wp.steps[2].focus_idx, Some(1));
    assert!(matches!(wp.steps[2].preselect, Some(PreselDir::Bottom)));
}

#[test]
fn plan_left_heavy_tree() {
    // A (top-left) / B (bottom-left) | C (right, full height)
    let a = make_entry("a", "1", 0, 0, 400, 540);
    let b = make_entry("b", "1", 0, 540, 400, 540);
    let c = make_entry("c", "1", 400, 0, 560, 1080);
    let refs: Vec<&WindowEntry> = vec![&a, &b, &c];
    let wp = build_workspace_plan(&refs, &[0, 1, 2]).unwrap();
    assert_eq!(wp.steps.len(), 3);

    // Order: A (full), C (right of A → root H split), B (below A → nested V split)
    assert_eq!(wp.steps[0].window_idx, 0);
    assert_eq!(wp.steps[1].window_idx, 2);
    assert!(matches!(wp.steps[1].preselect, Some(PreselDir::Right)));
    assert_eq!(wp.steps[2].window_idx, 1);
    assert!(matches!(wp.steps[2].preselect, Some(PreselDir::Bottom)));
}

#[test]
fn two_windows_with_gap_horizontal() {
    // 10px gap between windows (simulating gaps_in = 5)
    let a = make_entry("a", "1", 0, 0, 955, 1080);
    let b = make_entry("b", "1", 965, 0, 955, 1080);
    let refs = vec![&a, &b];
    let plan = build_workspace_plan(&refs, &[0, 1]);
    assert!(plan.is_some(), "should handle gaps between windows");
    assert_eq!(plan.unwrap().steps.len(), 2);
}

#[test]
fn three_windows_with_gaps() {
    //  +-------+  gap  +-------+
    //  |       |       |   B   |
    //  |   A   |  gap  +--gap--+
    //  |       |       |   C   |
    //  +-------+       +-------+
    let a = make_entry("a", "1", 5, 5, 950, 1070);
    let b = make_entry("b", "1", 965, 5, 950, 530);
    let c = make_entry("c", "1", 965, 545, 950, 530);
    let refs = vec![&a, &b, &c];
    let plan = build_workspace_plan(&refs, &[0, 1, 2]);
    assert!(plan.is_some(), "should handle gaps in nested splits");
    assert_eq!(plan.unwrap().steps.len(), 3);
}

#[test]
fn multi_monitor_offset_handled() {
    // Windows on a second monitor at x=1920 with gaps
    let a = make_entry("a", "2", 1925, 5, 950, 1070);
    let b = make_entry("b", "2", 2885, 5, 950, 1070);
    let refs = vec![&a, &b];
    let plan = build_workspace_plan(&refs, &[0, 1]);
    assert!(plan.is_some(), "should handle windows on offset monitor");
    assert_eq!(plan.unwrap().steps.len(), 2);
}

#[test]
fn dwindle_uneven_ratio() {
    let a = make_entry("a", "1", 0, 0, 1152, 1080);
    let b = make_entry("b", "1", 1152, 0, 768, 1080);
    let refs = vec![&a, &b];
    let bounds = bounding_rect(&refs).unwrap();
    let indexed = extract_indexed(&refs, &[0, 1]).unwrap();
    let tree = infer_bsp(&indexed, bounds).unwrap();
    match &tree {
        BspNode::Split { ratio, .. } => assert!((share(ratio) - 0.6).abs() < 0.01),
        BspNode::Leaf { .. } => panic!("expected split"),
    }
}

#[test]
fn ratio_steps_two_windows() {
    let a = make_entry("a", "1", 0, 0, 960, 1080);
    let b = make_entry("b", "1", 960, 0, 960, 1080);
    let refs = vec![&a, &b];
    let wp = build_workspace_plan(&refs, &[0, 1]).unwrap();
    assert_eq!(wp.ratio_steps.len(), 1);
    assert_eq!(wp.ratio_steps[0].focus_window_idx, 0);
    assert!((share(&wp.ratio_steps[0].ratio) - 0.5).abs() < 0.01);
}

#[test]
fn ratio_steps_three_windows_right_heavy() {
    let a = make_entry("a", "1", 0, 0, 960, 1080);
    let b = make_entry("b", "1", 960, 0, 960, 540);
    let c = make_entry("c", "1", 960, 540, 960, 540);
    let refs = vec![&a, &b, &c];
    let wp = build_workspace_plan(&refs, &[0, 1, 2]).unwrap();
    assert_eq!(wp.ratio_steps.len(), 2);
}

#[test]
fn ratio_steps_uneven_ratio_preserved() {
    let a = make_entry("a", "1", 0, 0, 1152, 1080);
    let b = make_entry("b", "1", 1152, 0, 768, 1080);
    let refs = vec![&a, &b];
    let wp = build_workspace_plan(&refs, &[0, 1]).unwrap();
    assert_eq!(wp.ratio_steps.len(), 1);
    assert!((share(&wp.ratio_steps[0].ratio) - 0.6).abs() < 0.01);
}

#[test]
fn four_windows_nested_with_large_gap_between_non_adjacent() {
    //  +--------+----------+------+
    //  |        |          |  c   |
    //  |   a    |    d     |      |
    //  |        |          +------+
    //  |        |          |  b   |
    //  +--------+----------+------+
    let a = make_entry("a", "2", 21, 69, 1112, 1350);
    let b = make_entry("b", "2", 2062, 1124, 477, 295);
    let c = make_entry("c", "2", 2062, 69, 477, 1033);
    let d = make_entry("d", "2", 1155, 69, 885, 1350);
    let refs: Vec<&WindowEntry> = vec![&a, &b, &c, &d];
    let plan = build_workspace_plan(&refs, &[0, 1, 2, 3]);
    assert!(
        plan.is_some(),
        "BSP inference should succeed for 4-window dwindle layout with gaps"
    );
    assert_eq!(plan.unwrap().steps.len(), 4);
}

/// Real-world 2x2 grid geometry (a live workspace: two terminals
/// stacked in a left column, two other apps stacked in a right
/// column), array order [a0(top), a1(bottom), discord, slack] with
/// global indices [0, 1, 2, 3].
///
///  +--------------+------------+
///  |    a0(top)   |  discord   |
///  +--------------+------------+
///  |  a1(bottom)  |   slack    |
///  +--------------+------------+
#[test]
fn real_world_four_window_2x2_grid() {
    let a0 = make_entry("Alacritty", "4", 2570, 45, 1464, 602);
    let a1 = make_entry("Alacritty", "4", 2570, 657, 1464, 773);
    let discord = make_entry("discord", "4", 4044, 45, 1066, 688);
    let slack = make_entry("slack", "4", 4044, 743, 1066, 687);
    let refs: Vec<&WindowEntry> = vec![&a0, &a1, &discord, &slack];

    let plan = build_workspace_plan(&refs, &[0, 1, 2, 3])
        .expect("BSP inference should succeed for a clean 2x2 grid");
    assert_eq!(plan.steps.len(), 4);

    // Root split is horizontal (left column vs. right column): a0 opens
    // first with no anchor, then discord splits off to its right.
    assert_eq!(plan.steps[0].window_idx, 0, "a0 opens first, no anchor");
    assert_eq!(plan.steps[0].focus_idx, None);
    assert!(plan.steps[0].preselect.is_none());

    assert_eq!(plan.steps[1].window_idx, 2, "discord splits off a0");
    assert_eq!(plan.steps[1].focus_idx, Some(0));
    assert!(matches!(plan.steps[1].preselect, Some(PreselDir::Right)));

    // Left column fills in: a1 splits below a0.
    assert_eq!(plan.steps[2].window_idx, 1, "a1 splits below a0");
    assert_eq!(plan.steps[2].focus_idx, Some(0));
    assert!(matches!(plan.steps[2].preselect, Some(PreselDir::Bottom)));

    // Right column fills in: slack splits below discord.
    assert_eq!(plan.steps[3].window_idx, 3, "slack splits below discord");
    assert_eq!(plan.steps[3].focus_idx, Some(2));
    assert!(matches!(plan.steps[3].preselect, Some(PreselDir::Bottom)));
}

/// Same 2x2 grid geometry as `real_world_four_window_2x2_grid`, but
/// using the array order actually found in a live `last.toml` session
/// file (slack, discord, then the two Alacrittys) with global indices
/// [0, 1, 2, 3] mapping to [slack, discord, a1, a0]. BSP inference is
/// purely geometric (`split_candidates` sorts/dedups edge coordinates
/// independent of input order), so the tree *shape* should be identical
/// to the other ordering — only the global-index numbers attached to
/// each leaf differ, following the remapping.
#[test]
fn real_world_four_window_2x2_grid_matches_live_session_order() {
    let slack = make_entry("slack", "4", 4044, 743, 1066, 687);
    let discord = make_entry("discord", "4", 4044, 45, 1066, 688);
    let a1 = make_entry("Alacritty", "4", 2570, 657, 1464, 773);
    let a0 = make_entry("Alacritty", "4", 2570, 45, 1464, 602);
    let refs: Vec<&WindowEntry> = vec![&slack, &discord, &a1, &a0];
    // global indices: slack=0, discord=1, a1=2, a0=3
    let plan = build_workspace_plan(&refs, &[0, 1, 2, 3])
        .expect("BSP inference should succeed regardless of array order");
    assert_eq!(plan.steps.len(), 4);

    assert_eq!(plan.steps[0].window_idx, 3, "a0 opens first, no anchor");
    assert_eq!(plan.steps[0].focus_idx, None);
    assert!(plan.steps[0].preselect.is_none());

    assert_eq!(plan.steps[1].window_idx, 1, "discord splits off a0");
    assert_eq!(plan.steps[1].focus_idx, Some(3));
    assert!(matches!(plan.steps[1].preselect, Some(PreselDir::Right)));

    assert_eq!(plan.steps[2].window_idx, 2, "a1 splits below a0");
    assert_eq!(plan.steps[2].focus_idx, Some(3));
    assert!(matches!(plan.steps[2].preselect, Some(PreselDir::Bottom)));

    assert_eq!(plan.steps[3].window_idx, 0, "slack splits below discord");
    assert_eq!(plan.steps[3].focus_idx, Some(1));
    assert!(matches!(plan.steps[3].preselect, Some(PreselDir::Bottom)));
}

#[test]
fn pixel_ratio_steps_two_windows_has_none() {
    // The lone split has two direct leaf children, so it's fully
    // reachable via splitratio: no pixel_ratio_steps expected.
    let a = make_entry("a", "1", 0, 0, 960, 1080);
    let b = make_entry("b", "1", 960, 0, 960, 1080);
    let refs = vec![&a, &b];
    let wp = build_workspace_plan(&refs, &[0, 1]).unwrap();
    assert!(wp.pixel_ratio_steps.is_empty());
}

#[test]
fn pixel_ratio_steps_three_windows_right_heavy_has_none() {
    // Root split has one direct leaf child (a); the other (b/c) is a
    // Split, but that's still reachable by focusing a or b/c's leaf.
    let a = make_entry("a", "1", 0, 0, 960, 1080);
    let b = make_entry("b", "1", 960, 0, 960, 540);
    let c = make_entry("c", "1", 960, 540, 960, 540);
    let refs = vec![&a, &b, &c];
    let wp = build_workspace_plan(&refs, &[0, 1, 2]).unwrap();
    assert!(wp.pixel_ratio_steps.is_empty());
}

/// The 2x2 grid's root split has two Split children (each column is
/// itself a nested vertical split of two leaves) — neither is a direct
/// leaf, so this is exactly the split `collect_splitratio_steps` cannot
/// reach; it has to be corrected in pixels instead.
#[test]
fn pixel_ratio_steps_capture_2x2_grid_root_split() {
    let a0 = make_entry("Alacritty", "4", 2570, 45, 1464, 602);
    let a1 = make_entry("Alacritty", "4", 2570, 657, 1464, 773);
    let discord = make_entry("discord", "4", 4044, 45, 1066, 688);
    let slack = make_entry("slack", "4", 4044, 743, 1066, 687);
    let refs: Vec<&WindowEntry> = vec![&a0, &a1, &discord, &slack];

    let wp = build_workspace_plan(&refs, &[0, 1, 2, 3]).unwrap();

    assert_eq!(
        wp.ratio_steps.len(),
        2,
        "only the two column splits are directly reachable via splitratio"
    );
    assert_eq!(
        wp.pixel_ratio_steps.len(),
        1,
        "the root split (left column vs. right column) has no direct \
         leaf child on either side and must surface as a \
         pixel_ratio_steps entry"
    );

    let step = &wp.pixel_ratio_steps[0];
    assert_eq!(step.dir, SplitDir::Horizontal, "columns split left/right");
    assert!(
        (share(&step.ratio) - 0.578).abs() < 0.01,
        "left column (1464px) vs. right column (1066px) of a 2540px \
         total span, got ratio {}",
        share(&step.ratio)
    );
    assert_eq!(
        step.first_leaf_idx, 0,
        "a0, leftmost leaf of the left column"
    );
    assert_eq!(
        step.second_leaf_idx, 2,
        "discord, leftmost leaf of the right column"
    );
}

/// A tree as text, each split in brackets with its direction.
fn shape(node: &BspNode) -> String {
    match node {
        BspNode::Leaf { idx } => idx.to_string(),
        BspNode::Split {
            dir, first, second, ..
        } => {
            let sign = match dir {
                SplitDir::Horizontal => "|",
                SplitDir::Vertical => "/",
            };
            format!("({}{}{})", shape(first), sign, shape(second))
        }
    }
}

/// The tree that a compositor comes to when every new window splits the cell
/// of the focused one.
fn replay(windows: &[&WindowEntry], indices: &[usize]) -> String {
    let plan = build_workspace_plan(windows, indices).unwrap();
    let mut text = plan.steps[0].window_idx.to_string();
    for step in &plan.steps[1..] {
        let sign = match step.preselect.unwrap() {
            PreselDir::Right => "|",
            PreselDir::Bottom => "/",
        };
        let focus = step.focus_idx.unwrap();
        text = text.replace(
            &focus.to_string(),
            &format!("({}{}{})", focus, sign, step.window_idx),
        );
    }
    text
}

#[test]
fn plan_rebuilds_the_tree() {
    // 0 over 1, beside 2.
    let a = make_entry("a", "1", 0, 0, 960, 540);
    let b = make_entry("b", "1", 0, 540, 960, 540);
    let c = make_entry("c", "1", 960, 0, 960, 1080);
    let refs = vec![&a, &b, &c];
    let indices = [0, 1, 2];
    let tree = infer_bsp(
        &extract_indexed(&refs, &indices).unwrap(),
        bounding_rect(&refs).unwrap(),
    )
    .unwrap();
    assert_eq!(shape(&tree), "((0/1)|2)");
    assert_eq!(replay(&refs, &indices), "((0/1)|2)");

    // 0 over 1, beside 2 over 3 and 4.
    let d = make_entry("d", "1", 960, 540, 480, 540);
    let e = make_entry("e", "1", 1440, 540, 480, 540);
    let top = make_entry("c", "1", 960, 0, 960, 540);
    let nested = vec![&a, &b, &top, &d, &e];
    let numbers = [0, 1, 2, 3, 4];
    let deep = infer_bsp(
        &extract_indexed(&nested, &numbers).unwrap(),
        bounding_rect(&nested).unwrap(),
    )
    .unwrap();
    assert_eq!(shape(&deep), "((0/1)|(2/(3|4)))");
    assert_eq!(replay(&nested, &numbers), "((0/1)|(2/(3|4)))");
}
