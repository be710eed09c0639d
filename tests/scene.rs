use multibg_wayland::scene::FilePlan;
use multibg_wayland::gpu::DeviceNodes;
use multibg_wayland::output::OutputTransform;
use multibg_wayland::scene::{AccelTarget, Backing, BackgroundLayer, DrawOutcome, Scene, Wallpaper, WallpaperFile, WorkspaceBackground};

fn file(workspace: &str, number: Option<i32>, canon: &str, modified: u128) -> WallpaperFile {
    WallpaperFile {
        path: format!("/w/{canon}"),
        workspace: workspace.to_string(),
        workspace_number: number,
        canon_path: canon.to_string(),
        canon_modified: modified,
    }
}

/// Loads one file on a layer the way the event loop does: reuse, else load.
fn load(scene: &mut Scene, layer: usize, f: WallpaperFile, target: &Option<AccelTarget>, backing: Backing, loads: &mut usize) -> usize {
    match scene.lookup_wallpaper(layer, &f, target) {
        Some(id) => {
            scene.bind_existing(layer, f, id);
            id
        }
        None => {
            *loads += 1;
            scene.bind_loaded(layer, f, target, backing, true)
        }
    }
}

#[test]
fn workspace_falls_back_to_default() {
    let mut scene = Scene::new();
    let l = scene.add_output("eDP-1".to_string(), 1920, 1080, OutputTransform::Normal, false);
    let mut loads = 0;
    let default = load(&mut scene, l, file("_default", None, "/w/eDP-1/_default.jpg", 1), &None, Backing::Host, &mut loads);
    let one = load(&mut scene, l, file("1", Some(1), "/w/eDP-1/1.jpg", 2), &None, Backing::Host, &mut loads);
    assert_ne!(default, one);
    assert_eq!(scene.draw_workspace_bg(l, "1", 1).0, DrawOutcome::NotConfigured);
    assert!(scene.mark_configured(l));
    assert!(!scene.mark_configured(l));
    let (outcome, released) = scene.draw_workspace_bg(l, "1", 1);
    assert_eq!(outcome, DrawOutcome::Attach(one));
    assert!(released.is_empty());
    let (outcome, _) = scene.draw_workspace_bg(l, "9", 9);
    assert_eq!(outcome, DrawOutcome::Attach(default));
    assert_eq!(scene.background_layers[l].current_wallpaper, Some(default));
    assert_eq!(scene.draw_workspace_bg(l, "9", 9).0, DrawOutcome::AlreadyShown(default));
}

#[test]
fn workspace_found_by_number() {
    let mut scene = Scene::new();
    let l = scene.add_output("HDMI-A-1".to_string(), 800, 600, OutputTransform::Normal, false);
    let mut loads = 0;
    let three = load(&mut scene, l, file("3", Some(3), "/w/3.png", 1), &None, Backing::Host, &mut loads);
    scene.mark_configured(l);
    assert_eq!(scene.draw_workspace_bg(l, "3:www", 3).0, DrawOutcome::Attach(three));
    assert_eq!(scene.draw_workspace_bg(l, "mail", 4).0, DrawOutcome::NoWallpaper);
    assert_eq!(scene.background_layers[l].current_wallpaper, Some(three));
}

#[test]
fn identical_files_on_two_outputs_share_one_wallpaper() {
    let mut scene = Scene::new();
    let a = scene.add_output("DP-1".to_string(), 2560, 1440, OutputTransform::Normal, false);
    let b = scene.add_output("DP-2".to_string(), 2560, 1440, OutputTransform::Normal, false);
    let mut loads = 0;
    let wa = load(&mut scene, a, file("1", Some(1), "/w/shared.jpg", 77), &None, Backing::Host, &mut loads);
    let wb = load(&mut scene, b, file("1", Some(1), "/w/shared.jpg", 77), &None, Backing::Host, &mut loads);
    let wc = load(&mut scene, b, file("2", Some(2), "/w/shared.jpg", 77), &None, Backing::Host, &mut loads);
    assert_eq!(loads, 1);
    assert_eq!(wa, wb);
    assert_eq!(wb, wc);
    assert_eq!(scene.wallpapers.iter().filter(|w| w.is_some()).count(), 1);
}

#[test]
fn different_geometry_or_time_is_loaded_again() {
    let mut scene = Scene::new();
    let a = scene.add_output("DP-1".to_string(), 2560, 1440, OutputTransform::Normal, false);
    let b = scene.add_output("DP-2".to_string(), 2560, 1440, OutputTransform::Rotate90, false);
    let mut loads = 0;
    load(&mut scene, a, file("1", Some(1), "/w/x.jpg", 5), &None, Backing::Host, &mut loads);
    load(&mut scene, b, file("1", Some(1), "/w/x.jpg", 5), &None, Backing::Host, &mut loads);
    load(&mut scene, a, file("2", Some(2), "/w/x.jpg", 6), &None, Backing::Host, &mut loads);
    assert_eq!(loads, 3);
}

#[test]
fn accelerated_wallpapers_match_device_and_modifier() {
    let mut scene = Scene::new();
    let a = scene.add_output("DP-1".to_string(), 100, 100, OutputTransform::Normal, true);
    let b = scene.add_output("DP-2".to_string(), 100, 100, OutputTransform::Normal, true);
    let device = DeviceNodes { primary: Some(0xe200), render: Some(0xe280), dmabuf: Some(0xe280) };
    let target = Some(AccelTarget { dmabuf_dev: Some(0xe280), modifiers: vec![7, 0] });
    let mut loads = 0;
    let w = load(&mut scene, a, file("1", Some(1), "/w/g.jpg", 1), &target, Backing::Accelerated { device, modifier: 7 }, &mut loads);
    let primary_target = Some(AccelTarget { dmabuf_dev: Some(0xe200), modifiers: vec![7] });
    assert_eq!(scene.lookup_wallpaper(b, &file("1", Some(1), "/w/g.jpg", 1), &primary_target), Some(w));
    let other_modifiers = Some(AccelTarget { dmabuf_dev: Some(0xe280), modifiers: vec![0] });
    assert_eq!(scene.lookup_wallpaper(b, &file("1", Some(1), "/w/g.jpg", 1), &other_modifiers), None);
    assert_eq!(scene.lookup_wallpaper(b, &file("1", Some(1), "/w/g.jpg", 1), &None), None);
    assert!(scene.feedback_unchanged(a, target.as_ref().unwrap()));
    assert!(!scene.feedback_unchanged(a, other_modifiers.as_ref().unwrap()));
    assert!(!scene.feedback_unchanged(b, target.as_ref().unwrap()));
    assert_eq!(loads, 1);
}

#[test]
fn destroying_last_output_releases_its_wallpapers() {
    let mut scene = Scene::new();
    let a = scene.add_output("DP-1".to_string(), 640, 480, OutputTransform::Normal, false);
    let b = scene.add_output("DP-2".to_string(), 640, 480, OutputTransform::Normal, false);
    let mut loads = 0;
    let shared = load(&mut scene, a, file("1", Some(1), "/w/s.jpg", 1), &None, Backing::Host, &mut loads);
    let own = load(&mut scene, a, file("2", Some(2), "/w/o.jpg", 1), &None, Backing::Host, &mut loads);
    load(&mut scene, b, file("1", Some(1), "/w/s.jpg", 1), &None, Backing::Host, &mut loads);
    assert!(scene.remove_output("HDMI-A-9").is_none());
    let (index, released) = scene.remove_output("DP-1").unwrap();
    assert_eq!(index, 0);
    assert_eq!(released, vec![own]);
    assert!(scene.wallpapers[shared].is_some());
    assert!(scene.wallpapers[own].is_none());
    assert_eq!(scene.background_layers.len(), 1);
    let (_, released) = scene.remove_output("DP-2").unwrap();
    assert_eq!(released, vec![shared]);
    assert!(scene.wallpapers.iter().all(|w| w.is_none()));
}

#[test]
fn pending_wallpaper_is_attached_when_its_buffer_exists() {
    let mut scene = Scene::new();
    let l = scene.add_output("DP-1".to_string(), 64, 64, OutputTransform::Normal, true);
    let device = DeviceNodes { primary: None, render: Some(1), dmabuf: Some(1) };
    let target = Some(AccelTarget { dmabuf_dev: Some(1), modifiers: vec![0] });
    let f = file("1", Some(1), "/w/p.jpg", 1);
    let w = scene.bind_loaded(l, f, &target, Backing::Accelerated { device, modifier: 0 }, false);
    let g = scene.bind_loaded(l, file("2", Some(2), "/w/q.jpg", 1), &target, Backing::Accelerated { device, modifier: 0 }, false);
    scene.mark_configured(l);
    assert_eq!(scene.draw_workspace_bg(l, "1", 1).0, DrawOutcome::Pending(w));
    assert_eq!(scene.draw_workspace_bg(l, "2", 2).0, DrawOutcome::Pending(g));
    let (attached, released) = scene.buffer_created(w);
    assert!(attached.is_empty());
    assert!(released.is_empty());
    assert_eq!(scene.background_layers[l].current_wallpaper, None);
    let (attached, _) = scene.buffer_created(g);
    assert_eq!(attached, vec![l]);
    assert_eq!(scene.background_layers[l].current_wallpaper, Some(g));
    assert_eq!(scene.background_layers[l].queued_wallpaper, None);
    assert_eq!(scene.buffer_created(99), (vec![], vec![]));
}

#[test]
fn failed_negotiation_falls_back_to_host_memory() {
    let mut scene = Scene::new();
    let l = scene.add_output("DP-1".to_string(), 64, 64, OutputTransform::Normal, true);
    let other = scene.add_output("DP-2".to_string(), 64, 64, OutputTransform::Normal, false);
    let device = DeviceNodes { primary: None, render: Some(1), dmabuf: Some(1) };
    let target = Some(AccelTarget { dmabuf_dev: Some(1), modifiers: vec![0] });
    let g1 = scene.bind_loaded(l, file("1", Some(1), "/w/a.jpg", 1), &target, Backing::Accelerated { device, modifier: 0 }, true);
    let g2 = scene.bind_loaded(l, file("2", Some(2), "/w/b.jpg", 1), &target, Backing::Accelerated { device, modifier: 0 }, false);
    let mut loads = 0;
    let h = load(&mut scene, other, file("1", Some(1), "/w/a.jpg", 1), &None, Backing::Host, &mut loads);
    scene.mark_configured(l);
    scene.draw_workspace_bg(l, "1", 1);
    assert_eq!(scene.layers_bound_to(g2), vec![l]);
    let mut released = scene.fallback_to_host(l);
    released.sort();
    assert_eq!(released, vec![g1, g2]);
    let layer = &scene.background_layers[l];
    assert!(layer.workspace_backgrounds.is_empty());
    assert_eq!(layer.current_wallpaper, None);
    assert!(!layer.zero_copy_feedback);
    let r1 = load(&mut scene, l, file("1", Some(1), "/w/a.jpg", 1), &None, Backing::Host, &mut loads);
    let r2 = load(&mut scene, l, file("2", Some(2), "/w/b.jpg", 1), &None, Backing::Host, &mut loads);
    assert_eq!(r1, h);
    assert_eq!(loads, 2);
    let layer = &scene.background_layers[l];
    assert_eq!(layer.workspace_backgrounds.len(), 2);
    for b in &layer.workspace_backgrounds {
        assert_eq!(scene.wallpapers[b.wallpaper].as_ref().unwrap().backing, Backing::Host);
    }
    assert!(scene.wallpapers[r2].is_some());
    assert!(scene.wallpapers[g1].is_none() && scene.wallpapers[g2].is_none());
}

#[test]
fn clearing_bindings_keeps_the_attached_wallpaper() {
    let mut scene = Scene::new();
    let l = scene.add_output("DP-1".to_string(), 64, 64, OutputTransform::Normal, false);
    let mut loads = 0;
    let a = load(&mut scene, l, file("1", Some(1), "/w/a.jpg", 1), &None, Backing::Host, &mut loads);
    let b = load(&mut scene, l, file("2", Some(2), "/w/b.jpg", 1), &None, Backing::Host, &mut loads);
    scene.mark_configured(l);
    scene.draw_workspace_bg(l, "1", 1);
    let released = scene.clear_bindings(l);
    assert_eq!(released, vec![b]);
    assert!(scene.wallpapers[a].is_some());
    assert_eq!(scene.find_layer("DP-1"), Some(l));
    assert_eq!(scene.find_layer("DP-3"), None);
}

#[test]
fn layer_draw_queues_until_ready() {
    let wallpaper = |ready: bool| Wallpaper {
        canon_path: "/w/a.jpg".to_string(),
        canon_modified: 1,
        width: 10,
        height: 10,
        transform: OutputTransform::Normal,
        backing: Backing::Host,
        buffer_ready: ready,
    };
    let mut layer = BackgroundLayer {
        output_name: "DP-1".to_string(),
        width: 10,
        height: 10,
        transform: OutputTransform::Normal,
        configured: true,
        workspace_backgrounds: vec![
            WorkspaceBackground { workspace_name: "_default".to_string(), workspace_number: None, wallpaper: 0 },
            WorkspaceBackground { workspace_name: "mail".to_string(), workspace_number: Some(2), wallpaper: 1 },
        ],
        current_wallpaper: None,
        queued_wallpaper: None,
        zero_copy_feedback: false,
    };
    let wallpapers = vec![Some(wallpaper(true)), Some(wallpaper(false))];
    assert_eq!(layer.draw_workspace_bg("2", 2, &wallpapers), DrawOutcome::Pending(1));
    assert_eq!(layer.queued_wallpaper, Some(1));
    assert_eq!(layer.draw_workspace_bg("7", 7, &wallpapers), DrawOutcome::Attach(0));
    assert_eq!(layer.current_wallpaper, Some(0));
    assert_eq!(layer.queued_wallpaper, None);
}

#[test]
fn lookup_prefers_own_binding_then_lowest_id() {
    let mut scene = Scene::new();
    let a = scene.add_output("DP-1".to_string(), 32, 32, OutputTransform::Normal, true);
    let b = scene.add_output("DP-2".to_string(), 32, 32, OutputTransform::Normal, true);
    let c = scene.add_output("DP-3".to_string(), 32, 32, OutputTransform::Normal, true);
    let device = DeviceNodes { primary: None, render: Some(1), dmabuf: Some(1) };
    let t1 = Some(AccelTarget { dmabuf_dev: Some(1), modifiers: vec![1] });
    let t2 = Some(AccelTarget { dmabuf_dev: Some(1), modifiers: vec![2] });
    let both = Some(AccelTarget { dmabuf_dev: Some(1), modifiers: vec![2, 1] });
    let w1 = scene.bind_loaded(a, file("1", Some(1), "/w/k.jpg", 3), &t1, Backing::Accelerated { device, modifier: 1 }, true);
    let w2 = scene.bind_loaded(b, file("1", Some(1), "/w/k.jpg", 3), &t2, Backing::Accelerated { device, modifier: 2 }, true);
    let f = file("1", Some(1), "/w/k.jpg", 3);
    // Not bound on the layer: the lowest matching id.
    assert_eq!(scene.lookup_wallpaper(c, &f, &both), Some(w1));
    // Bound on the layer: that binding's wallpaper first.
    assert_eq!(scene.lookup_wallpaper(b, &f, &both), Some(w2));
    assert_eq!(scene.lookup_wallpaper(a, &f, &both), Some(w1));
}

#[test]
fn file_plans_reuse_before_any_load() {
    let mut scene = Scene::new();
    let a = scene.add_output("DP-1".to_string(), 16, 16, OutputTransform::Normal, true);
    let b = scene.add_output("DP-2".to_string(), 16, 16, OutputTransform::Normal, true);
    let device = DeviceNodes { primary: None, render: Some(4), dmabuf: Some(4) };
    let target = Some(AccelTarget { dmabuf_dev: Some(4), modifiers: vec![0] });
    let f = file("1", Some(1), "/w/p.jpg", 9);
    assert_eq!(scene.plan_file(a, &f, &target), FilePlan::LoadAccelerated);
    assert_eq!(scene.plan_file(a, &f, &None), FilePlan::LoadHost);
    let w = scene.bind_loaded(a, file("1", Some(1), "/w/p.jpg", 9), &target, Backing::Accelerated { device, modifier: 0 }, false);
    assert_eq!(scene.plan_file(b, &f, &target), FilePlan::Reuse(w));
    assert_eq!(scene.plan_file(b, &f, &None), FilePlan::LoadHost);
}
