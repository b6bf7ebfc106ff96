use hyprresume::layout::master::{build_workspace_plan, MasterOrientation};
use hyprresume::layout::Ratio;
use hyprresume::models::WindowEntry;

fn share(ratio: &Ratio) -> f64 {
    f64::from(ratio.part) / f64::from(ratio.whole)
}

fn make_entry(app_id: &str, ws: &str, x: i32, y: i32, w: i32, h: i32) -> WindowEntry {
    WindowEntry {
        app_id: app_id.to_string(),
        launch_cmd: app_id.to_string(),
        workspace: ws.to_string(),
        monitor: None,
        floating: false,
        fullscreen: false,
        position: Some((x, y)),
        size: Some((w, h)),
        cwd: None,
        profile: None,
    }
}

#[test]
fn two_windows_left() {
    let a = make_entry("a", "1", 0, 0, 1152, 1080);
    let b = make_entry("b", "1", 1152, 0, 768, 1080);
    let refs = vec![&a, &b];
    let plan = build_workspace_plan(&refs, &[0, 1]).unwrap();
    assert_eq!(plan.orientation, MasterOrientation::Left);
    assert_eq!(plan.master_indices, vec![0]);
    assert_eq!(plan.stack_indices, vec![1]);
    assert!((share(&plan.mfact) - 0.6).abs() < 0.01);
}

#[test]
fn three_windows_left() {
    let a = make_entry("a", "1", 0, 0, 960, 1080);
    let b = make_entry("b", "1", 960, 0, 960, 540);
    let c = make_entry("c", "1", 960, 540, 960, 540);
    let refs = vec![&a, &b, &c];
    let plan = build_workspace_plan(&refs, &[0, 1, 2]).unwrap();
    assert_eq!(plan.orientation, MasterOrientation::Left);
    assert_eq!(plan.master_indices, vec![0]);
    assert_eq!(plan.stack_indices.len(), 2);
    assert!((share(&plan.mfact) - 0.5).abs() < 0.01);
}

#[test]
fn top_orientation() {
    let a = make_entry("a", "1", 0, 0, 1920, 540);
    let b = make_entry("b", "1", 0, 540, 960, 540);
    let c = make_entry("c", "1", 960, 540, 960, 540);
    let refs = vec![&a, &b, &c];
    let plan = build_workspace_plan(&refs, &[0, 1, 2]).unwrap();
    assert_eq!(plan.orientation, MasterOrientation::Top);
    assert_eq!(plan.master_indices, vec![0]);
    assert_eq!(plan.stack_indices.len(), 2);
}

#[test]
fn single_window() {
    let a = make_entry("a", "1", 0, 0, 1920, 1080);
    let refs = vec![&a];
    let plan = build_workspace_plan(&refs, &[0]).unwrap();
    assert_eq!(plan.master_indices, vec![0]);
    assert!(plan.stack_indices.is_empty());
}

#[test]
fn with_gaps() {
    let a = make_entry("a", "1", 5, 5, 950, 1070);
    let b = make_entry("b", "1", 965, 5, 950, 1070);
    let refs = vec![&a, &b];
    let plan = build_workspace_plan(&refs, &[0, 1]).unwrap();
    assert_eq!(plan.orientation, MasterOrientation::Left);
    assert_eq!(plan.master_indices, vec![0]);
    assert_eq!(plan.stack_indices, vec![1]);
}
