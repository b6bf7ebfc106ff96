use hyprresume::ipc::lua_compat::translate_dispatch;

#[test]
fn focuswindow() {
    assert_eq!(
        translate_dispatch("focuswindow address:0xabc123").unwrap(),
        r#"hl.dsp.focus({ window = "address:0xabc123" })"#
    );
}

#[test]
fn setfloating() {
    assert_eq!(
        translate_dispatch("setfloating address:0xabc123").unwrap(),
        r#"hl.dsp.window.float({ window = "address:0xabc123" })"#
    );
}

#[test]
fn closewindow() {
    assert_eq!(
        translate_dispatch("closewindow address:0xabc123").unwrap(),
        r#"hl.dsp.window.close({ window = "address:0xabc123" })"#
    );
}

#[test]
fn fullscreen() {
    assert_eq!(
        translate_dispatch("fullscreen 0,address:0xabc123").unwrap(),
        r#"hl.dsp.window.fullscreen({ window = "address:0xabc123", mode = 0 })"#
    );
}

#[test]
fn movetoworkspacesilent() {
    assert_eq!(
        translate_dispatch("movetoworkspacesilent 4,address:0xabc123").unwrap(),
        r#"hl.dsp.window.move({ window = "address:0xabc123", workspace = "4" })"#
    );
}

#[test]
fn movewindowpixel_exact() {
    assert_eq!(
        translate_dispatch("movewindowpixel exact 4044 45,address:0xabc123").unwrap(),
        r#"hl.dsp.window.move({ window = "address:0xabc123", x = 4044, y = 45 })"#
    );
}

#[test]
fn resizewindowpixel_exact() {
    assert_eq!(
        translate_dispatch("resizewindowpixel exact 1066 688,address:0xabc123").unwrap(),
        r#"hl.dsp.window.resize({ window = "address:0xabc123", x = 1066, y = 688, exact = true })"#
    );
}

#[test]
fn resizewindowpixel_relative() {
    assert_eq!(
        translate_dispatch("resizewindowpixel -3 6,address:0xabc123").unwrap(),
        r#"hl.dsp.window.resize({ window = "address:0xabc123", x = -3, y = 6, exact = false })"#
    );
}

#[test]
fn layoutmsg_preselect() {
    assert_eq!(
        translate_dispatch("layoutmsg preselect r").unwrap(),
        r#"hl.dsp.layout("preselect r")"#
    );
}

#[test]
fn layoutmsg_splitratio() {
    assert_eq!(
        translate_dispatch("layoutmsg splitratio 0.100000").unwrap(),
        r#"hl.dsp.layout("splitratio 0.100000")"#
    );
}

#[test]
fn layoutmsg_togglesplit() {
    assert_eq!(
        translate_dispatch("layoutmsg togglesplit").unwrap(),
        r#"hl.dsp.layout("togglesplit")"#
    );
}

#[test]
fn moveworkspacetomonitor() {
    assert_eq!(
        translate_dispatch("moveworkspacetomonitor 4 DP-3").unwrap(),
        r#"hl.dsp.workspace.move({ workspace = "4", monitor = "DP-3" })"#
    );
}

#[test]
fn exec_simple() {
    assert_eq!(
        translate_dispatch("exec alacritty").unwrap(),
        r#"hl.dsp.exec_cmd("alacritty")"#
    );
}

#[test]
fn workspace_switch_best_effort() {
    assert_eq!(
        translate_dispatch("workspace 4").unwrap(),
        r#"hl.dsp.workspace("4")"#
    );
}

#[test]
fn unknown_dispatcher_errors() {
    assert!(translate_dispatch("bogusdispatcher foo").is_err());
}
