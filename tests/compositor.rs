use multibg_wayland::compositor::{
    decimal_string, find_workspace, make_model_serial, make_model_serial_of, niri_ipc_is_current, niri_ver,
    niri_visible_workspaces, parse_niri_version, sway_visible_workspaces, visible_workspace_on_output,
    Compositor, CompositorInterface, ConnectionTask, DesktopEnv, NiriConnectionTask, NiriWorkspace, OutputInfo,
    SwayWorkspace, WorkspaceVisible, trimmed,
};

fn env() -> DesktopEnv {
    DesktopEnv {
        xdg_session_desktop: None,
        xdg_current_desktop: None,
        swaysock: false,
        hyprland_instance_signature: false,
        niri_socket: false,
    }
}

#[test]
fn compositor_detection_order() {
    assert_eq!(Compositor::from_env(&env()), None);
    let e = DesktopEnv { xdg_session_desktop: Some("sway".into()), niri_socket: true, ..env() };
    assert_eq!(Compositor::from_env(&e), Some(Compositor::Sway));
    let e = DesktopEnv { xdg_session_desktop: Some("gnome".into()), xdg_current_desktop: Some("Hyprland".into()), ..env() };
    assert_eq!(Compositor::from_env(&e), Some(Compositor::Hyprland));
    let e = DesktopEnv { xdg_current_desktop: Some("niri:GNOME".into()), swaysock: true, ..env() };
    assert_eq!(Compositor::from_env(&e), Some(Compositor::Niri));
    let e = DesktopEnv { xdg_session_desktop: Some("KDE".into()), hyprland_instance_signature: true, niri_socket: true, ..env() };
    assert_eq!(Compositor::from_env(&e), Some(Compositor::Hyprland));
    let e = DesktopEnv { xdg_session_desktop: Some("swa".into()), niri_socket: true, ..env() };
    assert_eq!(Compositor::from_env(&e), Some(Compositor::Niri));
}

#[test]
fn niri_versions() {
    assert_eq!(parse_niri_version("25.02 (unknown commit)"), Some(niri_ver(25, 2)));
    assert_eq!(niri_ver(25, 2), (25u64 << 32) | 2);
    assert_eq!(parse_niri_version("25.05.1"), Some(niri_ver(25, 5)));
    assert_eq!(parse_niri_version("25"), None);
    assert_eq!(parse_niri_version("25."), None);
    assert_eq!(parse_niri_version(".5"), None);
    assert_eq!(parse_niri_version("99999999999.1"), None);
    assert_eq!(parse_niri_version("4294967295.0"), Some(niri_ver(u32::MAX, 0)));
    assert!(niri_ipc_is_current(Some(niri_ver(25, 5))));
    assert!(niri_ipc_is_current(Some(niri_ver(26, 0))));
    assert!(!niri_ipc_is_current(Some(niri_ver(25, 2))));
    assert!(niri_ipc_is_current(None));
}

#[test]
fn make_model_serial_trims_and_joins() {
    assert_eq!(make_model_serial(" Dell Inc. ", "U2720Q", "  "), "Dell Inc. U2720Q");
    assert_eq!(make_model_serial("", "", "ABC123\n"), "ABC123");
    assert_eq!(make_model_serial("", " ", ""), "");
}

fn niri(id: u64, idx: u8, name: Option<&str>, output: Option<&str>, is_active: bool) -> NiriWorkspace {
    NiriWorkspace { id, idx, name: name.map(|s| s.to_string()), output: output.map(|s| s.to_string()), is_active }
}

#[test]
fn niri_workspaces_become_visible_workspaces() {
    let ws = vec![
        niri(10, 1, None, Some("eDP-1"), true),
        niri(11, 2, Some("web"), Some("eDP-1"), false),
        niri(12, 12, None, None, true),
    ];
    let v = niri_visible_workspaces(&ws);
    assert_eq!(v.len(), 2);
    assert_eq!((v[0].output.as_str(), v[0].workspace_name.as_str(), v[0].workspace_number), ("eDP-1", "1", 1));
    assert_eq!((v[1].output.as_str(), v[1].workspace_name.as_str(), v[1].workspace_number), ("", "12", 12));
    let w = find_workspace(&ws, 11).unwrap();
    assert_eq!((w.workspace_name.as_str(), w.workspace_number), ("web", 2));
    assert!(find_workspace(&ws, 99).is_none());
    assert_eq!(decimal_string(0), "0");
    assert_eq!(decimal_string(255), "255");
}

#[test]
fn sway_workspaces_become_visible_workspaces() {
    let ws = vec![
        SwayWorkspace { name: "1".into(), num: 1, output: "eDP-1".into(), visible: false },
        SwayWorkspace { name: "2: web".into(), num: 2, output: "HDMI-A-1".into(), visible: true },
    ];
    let v = sway_visible_workspaces(ws);
    assert_eq!(v.len(), 1);
    assert_eq!((v[0].output.as_str(), v[0].workspace_name.as_str(), v[0].workspace_number), ("HDMI-A-1", "2: web", 2));
}

struct Fake {
    visible: Vec<(String, String, i32)>,
    outputs: Vec<(String, String)>,
}

impl CompositorInterface for Fake {
    fn request_visible_workspaces(&mut self) -> Vec<WorkspaceVisible> {
        self.visible
            .iter()
            .map(|(o, n, k)| WorkspaceVisible { output: o.clone(), workspace_name: n.clone(), workspace_number: *k })
            .collect()
    }

    fn request_outputs(&mut self) -> Vec<OutputInfo> {
        self.outputs.iter().map(|(n, m)| OutputInfo { name: n.clone(), make_model_serial: m.clone() }).collect()
    }
}

#[test]
fn connection_task_queues_events() {
    let fake = Fake {
        visible: vec![("DP-1".into(), "1".into(), 1), ("DP-2".into(), "5".into(), 5)],
        outputs: vec![("DP-2".into(), "Acme X1".into())],
    };
    let mut task = ConnectionTask::new(fake);
    task.request_visible_workspace("DP-2");
    task.request_visible_workspace("DP-9");
    let events = task.take_events();
    assert_eq!(events.len(), 1);
    assert_eq!(events[0].workspace_name, "5");
    task.request_visible_workspaces();
    assert_eq!(task.take_events().len(), 2);
    assert!(task.take_events().is_empty());
    assert_eq!(task.request_make_model_serial("DP-2"), "Acme X1");
    assert_eq!(task.request_make_model_serial("DP-1"), "");
    let _ = NiriConnectionTask::new();
}

#[test]
fn lookups_by_output() {
    let v = vec![
        WorkspaceVisible { output: "A".into(), workspace_name: "1".into(), workspace_number: 1 },
        WorkspaceVisible { output: "B".into(), workspace_name: "2".into(), workspace_number: 2 },
    ];
    assert_eq!(visible_workspace_on_output(&v, "B"), Some(1));
    assert_eq!(visible_workspace_on_output(&v, "C"), None);
    let o = vec![OutputInfo { name: "A".into(), make_model_serial: "m".into() }];
    assert_eq!(make_model_serial_of(&o, "A"), "m");
    assert_eq!(make_model_serial_of(&o, "B"), "");
}

#[test]
fn trimming_matches_std() {
    for s in ["", "  ", "\t a b \n", "\u{3000}x\u{a0}", "\u{200b}y", "z\u{2029}", "\u{85}\u{1680}q\u{202f}\u{205f}"] {
        assert_eq!(trimmed(s), s.trim(), "for {s:?}");
    }
}
