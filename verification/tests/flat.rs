use hyprresume::layout::dwindle::{BspNode, PreselDir, SplitDir};
use hyprresume::layout::flat::{build_workspace_plan, infer_bsp};
use hyprresume::layout::{bounding_rect, extract_indexed, Ratio};
use hyprresume::models::WindowEntry;

fn share(ratio: &Ratio) -> f64 {
    f64::from(ratio.part) / f64::from(ratio.whole)
}

fn make_entry(app_id: &str, ws: &str, x: i32, y: i32, w: i32, h: i32) -> WindowEntry {
    WindowEntry {
        app_id: app_id.to_string(),
        launch_cmd: app_id.to_string(),
        workspace: ws.to_string(),
        monitor: None,
        floating: false,
        fullscreen: false,
        position: Some((x, y)),
        size: Some((w, h)),
        cwd: None,
        profile: None,
    }
}

#[test]
fn layout_single_window_is_leaf() {
    let w = make_entry("firefox", "1", 0, 0, 1920, 1080);
    let refs = vec![&w];
    let bounds = bounding_rect(&refs).unwrap();
    let indexed = extract_indexed(&refs, &[0]).unwrap();
    let tree = infer_bsp(&indexed, bounds).unwrap();
    assert!(matches!(tree, BspNode::Leaf { .. }));
}

#[test]
fn layout_two_windows_horizontal_split() {
    let a = make_entry("firefox", "1", 0, 0, 960, 1080);
    let b = make_entry("code", "1", 960, 0, 960, 1080);
    let refs = vec![&a, &b];
    let bounds = bounding_rect(&refs).unwrap();
    let indexed = extract_indexed(&refs, &[0, 1]).unwrap();
    let tree = infer_bsp(&indexed, bounds).unwrap();

    match &tree {
        BspNode::Split { dir, ratio, .. } => {
            assert_eq!(*dir, SplitDir::Horizontal);
            assert!((share(ratio) - 0.5).abs() < 0.01);
        }
        BspNode::Leaf { .. } => panic!("expected split"),
    }
}

#[test]
fn layout_two_windows_vertical_split() {
    let a = make_entry("firefox", "1", 0, 0, 1920, 540);
    let b = make_entry("code", "1", 0, 540, 1920, 540);
    let refs = vec![&a, &b];
    let bounds = bounding_rect(&refs).unwrap();
    let indexed = extract_indexed(&refs, &[0, 1]).unwrap();
    let tree = infer_bsp(&indexed, bounds).unwrap();

    match &tree {
        BspNode::Split { dir, ratio, .. } => {
            assert_eq!(*dir, SplitDir::Vertical);
            assert!((share(ratio) - 0.5).abs() < 0.01);
        }
        BspNode::Leaf { .. } => panic!("expected split"),
    }
}

#[test]
fn layout_three_windows_nested() {
    //  +-------+-------+
    //  |       |   B   |
    //  |   A   +-------+
    //  |       |   C   |
    //  +-------+-------+
    let a = make_entry("a", "1", 0, 0, 960, 1080);
    let b = make_entry("b", "1", 960, 0, 960, 540);
    let c = make_entry("c", "1", 960, 540, 960, 540);

    let refs = vec![&a, &b, &c];
    let bounds = bounding_rect(&refs).unwrap();
    let indexed = extract_indexed(&refs, &[0, 1, 2]).unwrap();
    let tree = infer_bsp(&indexed, bounds).unwrap();

    match &tree {
        BspNode::Split {
            dir: SplitDir::Horizontal,
            first,
            second,
            ..
        } => {
            assert!(matches!(first.as_ref(), BspNode::Leaf { .. }));
            match second.as_ref() {
                BspNode::Split {
                    dir: SplitDir::Vertical,
                    ..
                } => {}
                other => panic!("expected vertical split, got {other:?}"),
            }
        }
        other => panic!("expected horizontal split at root, got {other:?}"),
    }
}

#[test]
fn plan_respects_opening_order() {
    let a = make_entry("a", "1", 0, 0, 960, 1080);
    let b = make_entry("b", "1", 960, 0, 960, 540);
    let c = make_entry("c", "1", 960, 540, 960, 540);

    let refs: Vec<&WindowEntry> = vec![&a, &b, &c];
    let steps = build_workspace_plan(&refs, &[0, 1, 2]).unwrap();
    assert_eq!(steps.len(), 3);

    assert!(steps[0].focus_idx.is_none());
    assert!(steps[0].preselect.is_none());

    assert!(steps[1].focus_idx.is_some());
    assert!(matches!(steps[1].preselect, Some(PreselDir::Right)));

    assert!(steps[2].focus_idx.is_some());
    assert!(matches!(steps[2].preselect, Some(PreselDir::Bottom)));
}

#[test]
fn layout_uneven_ratio() {
    let a = make_entry("a", "1", 0, 0, 1152, 1080);
    let b = make_entry("b", "1", 1152, 0, 768, 1080);
    let refs = vec![&a, &b];
    let bounds = bounding_rect(&refs).unwrap();
    let indexed = extract_indexed(&refs, &[0, 1]).unwrap();
    let tree = infer_bsp(&indexed, bounds).unwrap();

    match &tree {
        BspNode::Split { ratio, .. } => {
            assert!((share(ratio) - 0.6).abs() < 0.01);
        }
        BspNode::Leaf { .. } => panic!("expected split"),
    }
}

#[test]
fn missing_geometry_returns_none() {
    let w = WindowEntry {
        app_id: "x".to_string(),
        launch_cmd: "x".to_string(),
        workspace: "1".to_string(),
        monitor: None,
        floating: false,
        fullscreen: false,
        position: None,
        size: None,
        cwd: None,
        profile: None,
    };
    let refs = vec![&w];
    assert!(bounding_rect(&refs).is_none());
}
