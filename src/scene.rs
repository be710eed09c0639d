//! The deduplicating wallpaper cache and the per-output background layers that
//! bind workspaces to shared wallpapers.
//!
//! Wallpapers live in an arena addressed by stable identifiers that are never
//! reused. A wallpaper stays alive while a workspace binding or an output's
//! attached image refers to it; the operations that drop references return the
//! identifiers they released, so that the caller frees the native memory.
use vstd::prelude::*;
use crate::gpu::{DeviceNodes, nodes_match};
use crate::output::OutputTransform;

verus! {

/// The memory that backs a wallpaper.
#[derive(Clone, Copy, Debug, PartialEq, Eq, Structural)]
pub enum Backing {
    /// Host memory shared with the display server.
    Host,
    /// Accelerator memory on a device, laid out with a format modifier.
    Accelerated { device: DeviceNodes, modifier: u64 },
}

/// The accelerator device and modifiers that an output accepts.
pub struct AccelTarget {
    pub dmabuf_dev: Option<u64>,
    pub modifiers: Vec<u64>,
}

/// A wallpaper file found for a workspace of an output.
pub struct WallpaperFile {
    pub path: String,
    /// The file name without its extension.
    pub workspace: String,
    /// The workspace number that the file name spells, if any.
    pub workspace_number: Option<i32>,
    /// The fully resolved path.
    pub canon_path: String,
    /// The modification time of the resolved file in nanoseconds.
    pub canon_modified: u128,
}

/// A decoded wallpaper in memory, sized for one geometry.
pub struct Wallpaper {
    pub canon_path: String,
    pub canon_modified: u128,
    pub width: i32,
    pub height: i32,
    pub transform: OutputTransform,
    pub backing: Backing,
    /// Whether the display server's buffer object for it exists yet.
    pub buffer_ready: bool,
}

/// One workspace of an output bound to a wallpaper.
pub struct WorkspaceBackground {
    pub workspace_name: String,
    pub workspace_number: Option<i32>,
    pub wallpaper: usize,
}

/// The background surface of one output.
pub struct BackgroundLayer {
    pub output_name: String,
    pub width: i32,
    pub height: i32,
    pub transform: OutputTransform,
    pub configured: bool,
    pub workspace_backgrounds: Vec<WorkspaceBackground>,
    /// The wallpaper attached to the surface.
    pub current_wallpaper: Option<usize>,
    /// The wallpaper to attach once its buffer object exists. It holds no
    /// reference: it may name a wallpaper that has since been released.
    pub queued_wallpaper: Option<usize>,
    /// Whether a zero-copy feedback object is active for the surface.
    pub zero_copy_feedback: bool,
}

/// All background layers and the wallpapers they share.
pub struct Scene {
    pub background_layers: Vec<BackgroundLayer>,
    pub wallpapers: Vec<Option<Wallpaper>>,
}

/// What to do with one wallpaper file.
#[derive(Clone, Copy, Debug, PartialEq, Eq, Structural)]
pub enum FilePlan {
    /// Bind the live wallpaper with this identifier; nothing is decoded.
    Reuse(usize),
    /// Decode the file and upload it to accelerator memory.
    LoadAccelerated,
    /// Decode the file into host memory.
    LoadHost,
}

/// What showing a workspace came to.
#[derive(Clone, Copy, Debug, PartialEq, Eq, Structural)]
pub enum DrawOutcome {
    /// The layer has not been configured yet; nothing changed.
    NotConfigured,
    /// No wallpaper fits the workspace; the prior image stays.
    NoWallpaper,
    /// The fitting wallpaper is already attached.
    AlreadyShown(usize),
    /// The fitting wallpaper waits for its buffer object.
    Pending(usize),
    /// The fitting wallpaper is now attached.
    Attach(usize),
}

pub open spec fn backing_matches(b: Backing, target: Option<AccelTarget>) -> bool {
    match b {
        Backing::Host => target is None,
        Backing::Accelerated { device, modifier } => match target {
            Some(t) => nodes_match(device, t.dmabuf_dev) && t.modifiers@.contains(modifier),
            None => false,
        },
    }
}

/// Whether a wallpaper can stand for `file` on a surface of the given geometry
/// with the given accelerator target (`None`: host memory).
pub open spec fn wallpaper_matches(
    w: Wallpaper,
    file: WallpaperFile,
    width: i32,
    height: i32,
    transform: OutputTransform,
    target: Option<AccelTarget>,
) -> bool {
    &&& w.canon_path@ == file.canon_path@
    &&& w.canon_modified == file.canon_modified
    &&& w.width == width
    &&& w.height == height
    &&& w.transform == transform
    &&& backing_matches(w.backing, target)
}

/// The dedup key of two wallpapers is the same.
pub open spec fn same_key(a: Wallpaper, b: Wallpaper) -> bool {
    &&& a.canon_path@ == b.canon_path@
    &&& a.canon_modified == b.canon_modified
    &&& a.width == b.width
    &&& a.height == b.height
    &&& a.transform == b.transform
    &&& a.backing == b.backing
}

pub open spec fn layer_references(l: BackgroundLayer, id: int) -> bool {
    ||| l.current_wallpaper == Some(id as usize)
    ||| exists|j: int|
        0 <= j < l.workspace_backgrounds@.len() && l.workspace_backgrounds@[j].wallpaper == id
}

pub open spec fn named(name: Seq<char>) -> spec_fn(WorkspaceBackground) -> bool {
    |b: WorkspaceBackground| b.workspace_name@ == name
}

pub open spec fn numbered(number: i32) -> spec_fn(WorkspaceBackground) -> bool {
    |b: WorkspaceBackground| b.workspace_number == Some(number)
}

/// The reserved name of the fallback wallpaper.
pub open spec fn default_name() -> Seq<char> {
    seq!['_', 'd', 'e', 'f', 'a', 'u', 'l', 't']
}

pub open spec fn is_first(
    bs: Seq<WorkspaceBackground>,
    j: int,
    p: spec_fn(WorkspaceBackground) -> bool,
) -> bool {
    0 <= j < bs.len() && p(bs[j]) && forall|k: int| 0 <= k < j ==> !p(bs[k])
}

pub open spec fn none_where(bs: Seq<WorkspaceBackground>, p: spec_fn(WorkspaceBackground) -> bool) -> bool {
    forall|k: int| 0 <= k < bs.len() ==> !p(bs[k])
}

/// The binding that shows a workspace: the first of that name, else the first
/// of that number, else the first named `_default`.
pub open spec fn selects(bs: Seq<WorkspaceBackground>, name: Seq<char>, number: i32, r: Option<int>) -> bool {
    match r {
        Some(j) => is_first(bs, j, named(name)) || (none_where(bs, named(name)) && is_first(
            bs,
            j,
            numbered(number),
        )) || (none_where(bs, named(name)) && none_where(bs, numbered(number)) && is_first(
            bs,
            j,
            named(default_name()),
        )),
        None => none_where(bs, named(name)) && none_where(bs, numbered(number)) && none_where(
            bs,
            named(default_name()),
        ),
    }
}

fn contains_modifier(modifiers: &Vec<u64>, m: u64) -> (r: bool)
    ensures
        r == modifiers@.contains(m),
{
    let mut i: usize = 0;
    while i < modifiers.len()
        invariant
            i <= modifiers@.len(),
            forall|k: int| 0 <= k < i ==> modifiers@[k] != m,
        decreases modifiers@.len() - i,
    {
        if modifiers[i] == m {
            return true;
        }
        i = i + 1;
    }
    false
}

fn matches_exec(
    w: &Wallpaper,
    file: &WallpaperFile,
    width: i32,
    height: i32,
    transform: OutputTransform,
    target: &Option<AccelTarget>,
) -> (r: bool)
    ensures
        r == wallpaper_matches(*w, *file, width, height, transform, *target),
{
    let backing_ok = match w.backing {
        Backing::Host => target.is_none(),
        Backing::Accelerated { device, modifier } => match target {
            Some(t) => device.dmabuf_drm_dev_eq(t.dmabuf_dev) && contains_modifier(&t.modifiers, modifier),
            None => false,
        },
    };
    backing_ok && w.canon_modified == file.canon_modified && w.width == width && w.height == height
        && w.transform == transform && w.canon_path == file.canon_path
}

fn find_named(bs: &Vec<WorkspaceBackground>, name: &String) -> (r: Option<usize>)
    ensures
        r matches Some(j) ==> is_first(bs@, j as int, named(name@)),
        r is None ==> none_where(bs@, named(name@)),
{
    let mut i: usize = 0;
    while i < bs.len()
        invariant
            i <= bs@.len(),
            forall|k: int| 0 <= k < i ==> !named(name@)(bs@[k]),
        decreases bs@.len() - i,
    {
        if bs[i].workspace_name == *name {
            return Some(i);
        }
        i = i + 1;
    }
    None
}

fn find_numbered(bs: &Vec<WorkspaceBackground>, number: i32) -> (r: Option<usize>)
    ensures
        r matches Some(j) ==> is_first(bs@, j as int, numbered(number)),
        r is None ==> none_where(bs@, numbered(number)),
{
    let mut i: usize = 0;
    while i < bs.len()
        invariant
            i <= bs@.len(),
            forall|k: int| 0 <= k < i ==> !numbered(number)(bs@[k]),
        decreases bs@.len() - i,
    {
        if bs[i].workspace_number == Some(number) {
            return Some(i);
        }
        i = i + 1;
    }
    None
}

/// The binding that shows the workspace `workspace_name` (number
/// `workspace_number`) among `bs`.
pub fn select_workspace_background(
    bs: &Vec<WorkspaceBackground>,
    workspace_name: &str,
    workspace_number: i32,
) -> (r: Option<usize>)
    ensures
        selects(bs@, workspace_name@, workspace_number, match r {
            Some(j) => Some(j as int),
            None => None,
        }),
{
    let name = workspace_name.to_owned();
    if let Some(j) = find_named(bs, &name) {
        return Some(j);
    }
    if let Some(j) = find_numbered(bs, workspace_number) {
        return Some(j);
    }
    proof {
        reveal_strlit("_default");
    }
    let default = "_default".to_owned();
    assert(default@ =~= default_name());
    find_named(bs, &default)
}

/// The layers agree in everything but their bindings.
pub open spec fn same_but_bindings(a: BackgroundLayer, b: BackgroundLayer) -> bool {
    &&& a.output_name == b.output_name
    &&& a.width == b.width
    &&& a.height == b.height
    &&& a.transform == b.transform
    &&& a.configured == b.configured
    &&& a.current_wallpaper == b.current_wallpaper
    &&& a.queued_wallpaper == b.queued_wallpaper
    &&& a.zero_copy_feedback == b.zero_copy_feedback
}

/// The outcome of showing a workspace on a layer, given the layer before.
pub open spec fn draw_spec(
    l: BackgroundLayer,
    wallpapers: Seq<Option<Wallpaper>>,
    name: Seq<char>,
    number: i32,
    r: DrawOutcome,
    after: BackgroundLayer,
) -> bool {
    let bs = l.workspace_backgrounds@;
    let ready = |id: usize| wallpapers[id as int] matches Some(w) && w.buffer_ready;
    &&& (r is NotConfigured <==> !l.configured)
    &&& (r is NoWallpaper <==> l.configured && selects(bs, name, number, None))
    &&& (r is NotConfigured || r is NoWallpaper || r is AlreadyShown) ==> after == l
    &&& r matches DrawOutcome::AlreadyShown(id) ==> exists|j: int|
        selects(bs, name, number, Some(j)) && bs[j].wallpaper == id && l.current_wallpaper == Some(id)
    &&& r matches DrawOutcome::Pending(id) ==> {
        &&& exists|j: int| selects(bs, name, number, Some(j)) && bs[j].wallpaper == id
        &&& l.current_wallpaper != Some(id)
        &&& !ready(id)
        &&& after == BackgroundLayer { queued_wallpaper: Some(id), ..l }
    }
    &&& r matches DrawOutcome::Attach(id) ==> {
        &&& exists|j: int| selects(bs, name, number, Some(j)) && bs[j].wallpaper == id
        &&& l.current_wallpaper != Some(id)
        &&& ready(id)
        &&& after == BackgroundLayer { current_wallpaper: Some(id), queued_wallpaper: None, ..l }
    }
}

impl BackgroundLayer {
    /// Shows workspace `workspace_name` (number `workspace_number`): attaches
    /// its wallpaper if its buffer object exists, else queues it.
    pub fn draw_workspace_bg(
        &mut self,
        workspace_name: &str,
        workspace_number: i32,
        wallpapers: &Vec<Option<Wallpaper>>,
    ) -> (r: DrawOutcome)
        requires
            forall|j: int|
                0 <= j < old(self).workspace_backgrounds@.len() ==> #[trigger] old(self).workspace_backgrounds@[j].wallpaper
                    < wallpapers@.len(),
        ensures
            draw_spec(*old(self), wallpapers@, workspace_name@, workspace_number, r, *final(self)),
    {
        if !self.configured {
            return DrawOutcome::NotConfigured;
        }
        let sel = select_workspace_background(&self.workspace_backgrounds, workspace_name, workspace_number);
        let j = match sel {
            None => return DrawOutcome::NoWallpaper,
            Some(j) => j,
        };
        let id = self.workspace_backgrounds[j].wallpaper;
        if self.current_wallpaper == Some(id) {
            return DrawOutcome::AlreadyShown(id);
        }
        let ready = match &wallpapers[id] {
            Some(w) => w.buffer_ready,
            None => false,
        };
        if !ready {
            self.queued_wallpaper = Some(id);
            return DrawOutcome::Pending(id);
        }
        self.current_wallpaper = Some(id);
        self.queued_wallpaper = None;
        DrawOutcome::Attach(id)
    }
}

fn layer_refers(l: &BackgroundLayer, id: usize) -> (r: bool)
    ensures
        r == layer_references(*l, id as int),
{
    if l.current_wallpaper == Some(id) {
        return true;
    }
    let mut j: usize = 0;
    while j < l.workspace_backgrounds.len()
        invariant
            j <= l.workspace_backgrounds@.len(),
            forall|k: int| 0 <= k < j ==> l.workspace_backgrounds@[k].wallpaper != id,
        decreases l.workspace_backgrounds@.len() - j,
    {
        if l.workspace_backgrounds[j].wallpaper == id {
            return true;
        }
        j = j + 1;
    }
    false
}

proof fn lemma_refs_live_after_layer_change(a: Scene, b: Scene, l: int)
    requires
        a.refs_live(),
        a.keys_unique(),
        forall|k: int| #[trigger] a.is_live(k) ==> b.is_live(k) && b.wallpaper(k) == a.wallpaper(k),
        forall|k: int| #[trigger] b.is_live(k) && k < a.wallpapers@.len() ==> a.is_live(k),
        b.background_layers@.len() == a.background_layers@.len(),
        0 <= l < a.background_layers@.len(),
        forall|i: int| 0 <= i < a.background_layers@.len() && i != l ==> b.background_layers@[i] == a.background_layers@[i],
        forall|j: int|
            0 <= j < b.background_layers@[l].workspace_backgrounds@.len() ==> #[trigger] b.is_live(
                b.background_layers@[l].workspace_backgrounds@[j].wallpaper as int,
            ),
        b.background_layers@[l].current_wallpaper is Some ==> b.is_live(
            b.background_layers@[l].current_wallpaper->Some_0 as int,
        ),
    ensures
        b.refs_live(),
        b.wallpapers@ == a.wallpapers@ ==> b.keys_unique(),
{
    if b.wallpapers@ == a.wallpapers@ {
        assert forall|x: int, y: int|
            b.is_live(x) && b.is_live(y) && x != y implies !same_key(
            #[trigger] b.wallpaper(x),
            #[trigger] b.wallpaper(y),
        ) by {
            assert(a.is_live(x) && a.is_live(y));
        }
    }
    assert forall|i: int, j: int|
        0 <= i < b.background_layers@.len() && 0 <= j < b.background_layers@[i].workspace_backgrounds@.len()
            implies #[trigger] b.is_live(b.background_layers@[i].workspace_backgrounds@[j].wallpaper as int) by {
        if i != l {
            assert(a.is_live(a.background_layers@[i].workspace_backgrounds@[j].wallpaper as int));
        }
    }
    assert forall|i: int|
        0 <= i < b.background_layers@.len() && (#[trigger] b.background_layers@[i]).current_wallpaper is Some
            implies b.is_live(b.background_layers@[i].current_wallpaper->Some_0 as int) by {
        if i != l {
            assert(a.background_layers@[i] == b.background_layers@[i]);
        }
    }
}

proof fn lemma_push_contains(before: Seq<usize>, after: Seq<usize>, x: usize, pushed: bool)
    requires
        after == if pushed {
            before.push(x)
        } else {
            before
        },
    ensures
        forall|k: usize| #[trigger] after.contains(k) == (before.contains(k) || (pushed && k == x)),
{
    assert forall|k: usize| #[trigger] after.contains(k) == (before.contains(k) || (pushed && k == x)) by {
        if pushed {
            if before.contains(k) {
                let j = choose|j: int| 0 <= j < before.len() && before[j] == k;
                assert(after[j] == k);
            }
            if k == x {
                assert(after[after.len() - 1] == x);
            }
            if after.contains(k) {
                let j = choose|j: int| 0 <= j < after.len() && after[j] == k;
                if j < before.len() {
                    assert(before[j] == k);
                }
            }
        }
    }
}

proof fn lemma_same_refs(a: Scene, b: Scene)
    requires
        a.wf(),
        b.wallpapers@ == a.wallpapers@,
        b.background_layers@.len() == a.background_layers@.len(),
        forall|i: int|
            0 <= i < a.background_layers@.len() ==> (#[trigger] b.background_layers@[i]).workspace_backgrounds
                == a.background_layers@[i].workspace_backgrounds && b.background_layers@[i].current_wallpaper
                == a.background_layers@[i].current_wallpaper,
    ensures
        b.wf(),
        forall|k: int| #[trigger] b.references(k) == a.references(k),
{
    assert forall|k: int| #[trigger] b.references(k) == a.references(k) by {
        if a.references(k) {
            let i = choose|i: int| 0 <= i < a.background_layers@.len() && layer_references(a.background_layers@[i], k);
            assert(layer_references(b.background_layers@[i], k));
        }
        if b.references(k) {
            let i = choose|i: int| 0 <= i < b.background_layers@.len() && layer_references(b.background_layers@[i], k);
            assert(layer_references(a.background_layers@[i], k));
        }
    }
    assert forall|i: int, j: int|
        0 <= i < b.background_layers@.len() && 0 <= j < b.background_layers@[i].workspace_backgrounds@.len()
            implies #[trigger] b.is_live(b.background_layers@[i].workspace_backgrounds@[j].wallpaper as int) by {
        assert(b.background_layers@[i].workspace_backgrounds == a.background_layers@[i].workspace_backgrounds);
        assert(a.is_live(a.background_layers@[i].workspace_backgrounds@[j].wallpaper as int));
    }
    assert forall|i: int|
        0 <= i < b.background_layers@.len() && (#[trigger] b.background_layers@[i]).current_wallpaper is Some
            implies b.is_live(b.background_layers@[i].current_wallpaper->Some_0 as int) by {
        assert(a.background_layers@[i].current_wallpaper == b.background_layers@[i].current_wallpaper);
        assert(a.is_live(a.background_layers@[i].current_wallpaper->Some_0 as int));
    }
    assert forall|x: int, y: int|
        b.is_live(x) && b.is_live(y) && x != y implies !same_key(
        #[trigger] b.wallpaper(x),
        #[trigger] b.wallpaper(y),
    ) by {
        assert(a.is_live(x) && a.is_live(y));
        assert(a.wallpaper(x) == b.wallpaper(x) && a.wallpaper(y) == b.wallpaper(y));
    }
    assert forall|k: int| #[trigger] b.is_live(k) implies b.references(k) by {
        assert(a.is_live(k));
    }
}

impl Scene {
    pub open spec fn is_live(&self, id: int) -> bool {
        0 <= id < self.wallpapers@.len() && self.wallpapers@[id] is Some
    }

    pub open spec fn wallpaper(&self, id: int) -> Wallpaper {
        self.wallpapers@[id]->Some_0
    }

    /// Some binding or attached image of some layer refers to `id`.
    pub open spec fn references(&self, id: int) -> bool {
        exists|i: int|
            0 <= i < self.background_layers@.len() && layer_references(self.background_layers@[i], id)
    }

    /// Every reference names a live wallpaper.
    pub open spec fn refs_live(&self) -> bool {
        &&& forall|i: int, j: int|
            0 <= i < self.background_layers@.len() && 0 <= j
                < self.background_layers@[i].workspace_backgrounds@.len() ==> #[trigger] self.is_live(
                self.background_layers@[i].workspace_backgrounds@[j].wallpaper as int,
            )
        &&& forall|i: int|
            0 <= i < self.background_layers@.len() && (#[trigger] self.background_layers@[i]).current_wallpaper is Some
                ==> self.is_live(self.background_layers@[i].current_wallpaper->Some_0 as int)
    }

    /// No two live wallpapers have the same dedup key.
    pub open spec fn keys_unique(&self) -> bool {
        forall|a: int, b: int|
            self.is_live(a) && self.is_live(b) && a != b ==> !same_key(
                #[trigger] self.wallpaper(a),
                #[trigger] self.wallpaper(b),
            )
    }

    /// Live wallpaper `id` can stand for `file` on layer `layer`.
    pub open spec fn matches_on(&self, layer: int, id: int, file: WallpaperFile, target: Option<AccelTarget>) -> bool {
        let l = self.background_layers@[layer];
        wallpaper_matches(self.wallpaper(id), file, l.width, l.height, l.transform, target)
    }

    /// Binding `j` of layer `layer` names a wallpaper that can stand for `file`.
    pub open spec fn binding_matches(&self, layer: int, j: int, file: WallpaperFile, target: Option<AccelTarget>) -> bool {
        let bs = self.background_layers@[layer].workspace_backgrounds@;
        0 <= j < bs.len() && self.matches_on(layer, bs[j].wallpaper as int, file, target)
    }

    /// Binding `j` is the first binding of layer `layer` that matches.
    pub open spec fn first_binding_match(
        &self,
        layer: int,
        j: int,
        file: WallpaperFile,
        target: Option<AccelTarget>,
    ) -> bool {
        self.binding_matches(layer, j, file, target) && forall|k: int|
            0 <= k < j ==> !self.binding_matches(layer, k, file, target)
    }

    /// What a lookup of `file` on layer `layer` returns: the wallpaper of the
    /// layer's first matching binding, else the lowest live matching id, and
    /// `None` only when no live wallpaper matches.
    pub open spec fn lookup_spec(
        &self,
        layer: int,
        file: WallpaperFile,
        target: Option<AccelTarget>,
        r: Option<usize>,
    ) -> bool {
        &&& r matches Some(id) ==> self.is_live(id as int) && self.matches_on(layer, id as int, file, target)
        &&& r is None ==> !self.has_match(layer, file, target)
        &&& (exists|j: int| self.binding_matches(layer, j, file, target)) ==> exists|j: int|
            self.first_binding_match(layer, j, file, target) && r == Some(
                self.background_layers@[layer].workspace_backgrounds@[j].wallpaper,
            )
        &&& !(exists|j: int| self.binding_matches(layer, j, file, target)) ==> (r matches Some(id)
            ==> forall|k: int| 0 <= k < id ==> !(self.is_live(k) && self.matches_on(layer, k, file, target)))
    }

    /// A live wallpaper that can stand for `file` on layer `layer`.
    pub open spec fn has_match(&self, layer: int, file: WallpaperFile, target: Option<AccelTarget>) -> bool {
        let l = self.background_layers@[layer];
        exists|id: int|
            self.is_live(id) && wallpaper_matches(
                #[trigger] self.wallpaper(id),
                file,
                l.width,
                l.height,
                l.transform,
                target,
            )
    }

    pub open spec fn wf(&self) -> bool {
        &&& self.refs_live()
        &&& self.keys_unique()
        &&& forall|id: int| #[trigger] self.is_live(id) ==> self.references(id)
    }

    /// Every wallpaper bound on layer `layer` is in host memory.
    pub open spec fn layer_host_backed(&self, layer: int) -> bool {
        let bs = self.background_layers@[layer].workspace_backgrounds@;
        forall|j: int|
            0 <= j < bs.len() ==> self.wallpaper(#[trigger] bs[j].wallpaper as int).backing
                == Backing::Host
    }

    pub fn new() -> (r: Scene)
        ensures
            r.wf(),
            r.background_layers@.len() == 0,
            r.wallpapers@.len() == 0,
    {
        Scene { background_layers: Vec::new(), wallpapers: Vec::new() }
    }

    /// Adds the layer of a new output, with no wallpapers bound yet.
    pub fn add_output(
        &mut self,
        output_name: String,
        width: i32,
        height: i32,
        transform: OutputTransform,
        zero_copy_feedback: bool,
    ) -> (r: usize)
        requires
            old(self).wf(),
        ensures
            final(self).wf(),
            r == old(self).background_layers@.len(),
            final(self).wallpapers@ == old(self).wallpapers@,
            final(self).background_layers@.len() == r + 1,
            forall|i: int| 0 <= i < r ==> final(self).background_layers@[i] == old(self).background_layers@[i],
            final(self).background_layers@[r as int].output_name@ == output_name@,
            final(self).background_layers@[r as int].width == width,
            final(self).background_layers@[r as int].height == height,
            final(self).background_layers@[r as int].transform == transform,
            final(self).background_layers@[r as int].zero_copy_feedback == zero_copy_feedback,
            !final(self).background_layers@[r as int].configured,
            final(self).background_layers@[r as int].workspace_backgrounds@.len() == 0,
            final(self).background_layers@[r as int].current_wallpaper is None,
            final(self).background_layers@[r as int].queued_wallpaper is None,
    {
        let r = self.background_layers.len();
        let layer = BackgroundLayer {
            output_name,
            width,
            height,
            transform,
            configured: false,
            workspace_backgrounds: Vec::new(),
            current_wallpaper: None,
            queued_wallpaper: None,
            zero_copy_feedback,
        };
        let ghost old_self = *self;
        self.background_layers.push(layer);
        proof {
            assert(self.background_layers@[r as int].workspace_backgrounds@.len() == 0);
            assert forall|i: int, j: int|
                0 <= i < self.background_layers@.len() && 0 <= j
                    < self.background_layers@[i].workspace_backgrounds@.len() implies #[trigger] self.is_live(
                    self.background_layers@[i].workspace_backgrounds@[j].wallpaper as int,
                ) by {
                assert(i < r);
                assert(self.background_layers@[i] == old_self.background_layers@[i]);
                assert(old_self.is_live(old_self.background_layers@[i].workspace_backgrounds@[j].wallpaper as int));
            }
            assert forall|i: int|
                0 <= i < self.background_layers@.len() && (#[trigger] self.background_layers@[i]).current_wallpaper is Some
                    implies self.is_live(self.background_layers@[i].current_wallpaper->Some_0 as int) by {
                assert(i < r);
                assert(self.background_layers@[i] == old_self.background_layers@[i]);
            }
            assert forall|id: int| #[trigger] self.is_live(id) implies self.references(id) by {
                assert(old_self.is_live(id));
                let i = choose|i: int|
                    0 <= i < old_self.background_layers@.len() && layer_references(
                        old_self.background_layers@[i],
                        id,
                    );
                assert(self.background_layers@[i] == old_self.background_layers@[i]);
            }
            assert forall|a: int, b: int|
                self.is_live(a) && self.is_live(b) && a != b implies !same_key(
                #[trigger] self.wallpaper(a),
                #[trigger] self.wallpaper(b),
            ) by {
                assert(old_self.wallpaper(a) == self.wallpaper(a));
                assert(old_self.wallpaper(b) == self.wallpaper(b));
            }
        }
        r
    }

    /// Whether some binding or attached image refers to wallpaper `id`.
    pub fn is_referenced(&self, id: usize) -> (r: bool)
        ensures
            r == self.references(id as int),
    {
        let mut i: usize = 0;
        while i < self.background_layers.len()
            invariant
                i <= self.background_layers@.len(),
                forall|k: int| 0 <= k < i ==> !layer_references(self.background_layers@[k], id as int),
            decreases self.background_layers@.len() - i,
        {
            if layer_refers(&self.background_layers[i], id) {
                return true;
            }
            i = i + 1;
        }
        false
    }

    /// Releases every live wallpaper that nothing refers to any more, and
    /// returns their identifiers.
    pub fn collect_garbage(&mut self) -> (released: Vec<usize>)
        requires
            old(self).refs_live(),
            old(self).keys_unique(),
        ensures
            final(self).wf(),
            final(self).background_layers@ == old(self).background_layers@,
            final(self).wallpapers@.len() == old(self).wallpapers@.len(),
            forall|id: int|
                #[trigger] final(self).is_live(id) == (old(self).is_live(id) && old(self).references(id)),
            forall|id: int| #[trigger] final(self).is_live(id) ==> final(self).wallpaper(id) == old(self).wallpaper(id),
            forall|id: usize|
                #[trigger] released@.contains(id) == (old(self).is_live(id as int) && !old(self).references(id as int)),
    {
        let ghost old_self = *self;
        let mut released: Vec<usize> = Vec::new();
        let mut id: usize = 0;
        while id < self.wallpapers.len()
            invariant
                id <= self.wallpapers@.len() == old_self.wallpapers@.len(),
                self.background_layers@ == old_self.background_layers@,
                forall|k: int| 0 <= k < id ==> #[trigger] self.is_live(k) == (old_self.is_live(k) && old_self.references(k)),
                forall|k: int| id <= k < self.wallpapers@.len() ==> self.wallpapers@[k] == old_self.wallpapers@[k],
                forall|k: int| #[trigger] self.is_live(k) ==> self.wallpaper(k) == old_self.wallpaper(k),
                forall|k: usize|
                    #[trigger] released@.contains(k) == (k < id && old_self.is_live(k as int) && !old_self.references(k as int)),
            decreases self.wallpapers@.len() - id,
        {
            let ghost before = *self;
            let ghost before_released = released@;
            let referenced = self.is_referenced(id);
            assert(referenced == old_self.references(id as int));
            if self.wallpapers[id].is_some() && !referenced {
                self.wallpapers.set(id, None);
                released.push(id);
                assert(released@ == before_released.push(id));
                assert(released@[released@.len() - 1] == id);
            } else {
                assert(!before_released.contains(id));
            }
            proof {
                assert(before.wallpapers@[id as int] == old_self.wallpapers@[id as int]);
                assert(old_self.is_live(id as int) == before.wallpapers@[id as int] is Some);
                assert(released@.contains(id) == (old_self.is_live(id as int) && !old_self.references(id as int)));
                assert forall|k: int| 0 <= k < id + 1 implies #[trigger] self.is_live(k) == (
                old_self.is_live(k) && old_self.references(k)) by {
                    if k < id {
                        assert(before.is_live(k) == self.is_live(k));
                    }
                }
                assert forall|k: int| #[trigger] self.is_live(k) implies self.wallpaper(k)
                    == old_self.wallpaper(k) by {
                    assert(before.is_live(k));
                }
                assert forall|k: usize|
                    #[trigger] released@.contains(k) == (k < id + 1 && old_self.is_live(k as int)
                        && !old_self.references(k as int)) by {
                    assert(before.wallpapers@[id as int] == old_self.wallpapers@[id as int]);
                    if k == id {
                        assert(!before_released.contains(k));
                        if released@.len() > before_released.len() {
                            assert(released@[released@.len() - 1] == id);
                        } else {
                            assert(released@ == before_released);
                        }
                    } else if released@.contains(k) {
                        let j = choose|j: int| 0 <= j < released@.len() && released@[j] == k;
                        if j < before_released.len() {
                            assert(before_released[j] == k);
                        }
                        assert(before_released.contains(k));
                    }
                    if k < id && old_self.is_live(k as int) && !old_self.references(k as int) {
                        assert(before_released.contains(k));
                        let j = choose|j: int| 0 <= j < before_released.len() && before_released[j] == k;
                        assert(released@[j] == k);
                    }
                }
            }
            id = id + 1;
        }
        proof {
            assert(forall|k: int| #[trigger] self.is_live(k) == (old_self.is_live(k) && old_self.references(k)));
            assert forall|i: int, j: int|
                0 <= i < self.background_layers@.len() && 0 <= j
                    < self.background_layers@[i].workspace_backgrounds@.len() implies #[trigger] self.is_live(
                    self.background_layers@[i].workspace_backgrounds@[j].wallpaper as int,
                ) by {
                let w = self.background_layers@[i].workspace_backgrounds@[j].wallpaper as int;
                assert(old_self.is_live(w));
                assert(layer_references(old_self.background_layers@[i], w));
            }
            assert forall|i: int|
                0 <= i < self.background_layers@.len() && (#[trigger] self.background_layers@[i]).current_wallpaper is Some
                    implies self.is_live(self.background_layers@[i].current_wallpaper->Some_0 as int) by {
                let w = self.background_layers@[i].current_wallpaper->Some_0 as int;
                assert(old_self.is_live(w));
                assert(layer_references(old_self.background_layers@[i], w));
            }
            assert forall|a: int, b: int|
                self.is_live(a) && self.is_live(b) && a != b implies !same_key(
                #[trigger] self.wallpaper(a),
                #[trigger] self.wallpaper(b),
            ) by {
                assert(old_self.is_live(a) && old_self.is_live(b));
            }
        }
        released
    }

    /// A live wallpaper that can stand for `file` on layer `layer`: first among
    /// the layer's own bindings, then among all wallpapers.
    pub fn lookup_wallpaper(&self, layer: usize, file: &WallpaperFile, target: &Option<AccelTarget>) -> (r:
        Option<usize>)
        requires
            self.wf(),
            layer < self.background_layers@.len(),
        ensures
            self.lookup_spec(layer as int, *file, *target, r),
    {
        let l = &self.background_layers[layer];
        let mut j: usize = 0;
        while j < l.workspace_backgrounds.len()
            invariant
                self.wf(),
                layer < self.background_layers@.len(),
                *l == self.background_layers@[layer as int],
                j <= l.workspace_backgrounds@.len(),
                forall|k: int| 0 <= k < j ==> !self.binding_matches(layer as int, k, *file, *target),
            decreases l.workspace_backgrounds@.len() - j,
        {
            let id = l.workspace_backgrounds[j].wallpaper;
            assert(self.is_live(id as int));
            if let Some(w) = &self.wallpapers[id] {
                if matches_exec(w, file, l.width, l.height, l.transform, target) {
                    assert(self.first_binding_match(layer as int, j as int, *file, *target));
                    return Some(id);
                }
            }
            j = j + 1;
        }
        assert(!(exists|j: int| self.binding_matches(layer as int, j, *file, *target)));
        let mut id: usize = 0;
        while id < self.wallpapers.len()
            invariant
                layer < self.background_layers@.len(),
                *l == self.background_layers@[layer as int],
                id <= self.wallpapers@.len(),
                !(exists|j: int| self.binding_matches(layer as int, j, *file, *target)),
                forall|k: int|
                    0 <= k < id && #[trigger] self.is_live(k) ==> !wallpaper_matches(
                        self.wallpaper(k),
                        *file,
                        l.width,
                        l.height,
                        l.transform,
                        *target,
                    ),
            decreases self.wallpapers@.len() - id,
        {
            if let Some(w) = &self.wallpapers[id] {
                if matches_exec(w, file, l.width, l.height, l.transform, target) {
                    return Some(id);
                }
            }
            id = id + 1;
        }
        None
    }

    /// What to do with one file of layer `layer`: bind the wallpaper that a
    /// lookup finds, else load it into accelerator memory when a target is
    /// given, else into host memory. A file that a live wallpaper can stand
    /// for is never loaded again.
    pub fn plan_file(&self, layer: usize, file: &WallpaperFile, target: &Option<AccelTarget>) -> (r: FilePlan)
        requires
            self.wf(),
            layer < self.background_layers@.len(),
        ensures
            r is Reuse <==> self.has_match(layer as int, *file, *target),
            r matches FilePlan::Reuse(id) ==> self.lookup_spec(layer as int, *file, *target, Some(id)),
            r is LoadAccelerated <==> !self.has_match(layer as int, *file, *target) && target is Some,
            r is LoadHost <==> !self.has_match(layer as int, *file, *target) && target is None,
    {
        match self.lookup_wallpaper(layer, file, target) {
            Some(id) => FilePlan::Reuse(id),
            None => if target.is_some() {
                FilePlan::LoadAccelerated
            } else {
                FilePlan::LoadHost
            },
        }
    }

    /// Binds the workspace of `file` on layer `layer` to the live wallpaper `id`.
    pub fn bind_existing(&mut self, layer: usize, file: WallpaperFile, id: usize)
        requires
            old(self).wf(),
            layer < old(self).background_layers@.len(),
            old(self).is_live(id as int),
        ensures
            final(self).wf(),
            final(self).wallpapers@ == old(self).wallpapers@,
            final(self).background_layers@.len() == old(self).background_layers@.len(),
            forall|i: int|
                0 <= i < final(self).background_layers@.len() && i != layer ==> final(self).background_layers@[i]
                    == old(self).background_layers@[i],
            same_but_bindings(final(self).background_layers@[layer as int], old(self).background_layers@[layer as int]),
            final(self).background_layers@[layer as int].workspace_backgrounds@ == old(self).background_layers@[layer as int].workspace_backgrounds@.push(
                WorkspaceBackground {
                    workspace_name: file.workspace,
                    workspace_number: file.workspace_number,
                    wallpaper: id,
                },
            ),
            old(self).layer_host_backed(layer as int) && old(self).wallpaper(id as int).backing == Backing::Host
                ==> final(self).layer_host_backed(layer as int),
    {
        let ghost old_self = *self;
        let binding = WorkspaceBackground {
            workspace_name: file.workspace,
            workspace_number: file.workspace_number,
            wallpaper: id,
        };
        let ghost gb = binding;
        self.background_layers[layer].workspace_backgrounds.push(binding);
        proof {
            let ghost ob = old_self.background_layers@[layer as int].workspace_backgrounds@;
            let ghost nb = self.background_layers@[layer as int].workspace_backgrounds@;
            assert(nb == ob.push(gb));
            assert forall|j: int| 0 <= j < nb.len() implies #[trigger] self.is_live(nb[j].wallpaper as int) by {
                if j < ob.len() {
                    assert(nb[j] == ob[j]);
                    assert(old_self.is_live(old_self.background_layers@[layer as int].workspace_backgrounds@[j].wallpaper as int));
                }
            }
            lemma_refs_live_after_layer_change(old_self, *self, layer as int);
            assert forall|k: int| #[trigger] self.is_live(k) implies self.references(k) by {
                assert(old_self.is_live(k));
                assert(nb == ob.push(gb));
                let i = choose|i: int|
                    0 <= i < old_self.background_layers@.len() && layer_references(
                        old_self.background_layers@[i],
                        k,
                    );
                if i == layer && old_self.background_layers@[i].current_wallpaper != Some(k as usize) {
                    let j = choose|j: int|
                        0 <= j < old_self.background_layers@[i].workspace_backgrounds@.len()
                            && old_self.background_layers@[i].workspace_backgrounds@[j].wallpaper == k;
                    assert(self.background_layers@[i].workspace_backgrounds@[j] == old_self.background_layers@[i].workspace_backgrounds@[j]);
                }
                assert(layer_references(self.background_layers@[i], k));
            }
        }
    }

    /// Adds a freshly loaded wallpaper for `file` on layer `layer` and binds the
    /// file's workspace to it. Only a file that no live wallpaper can stand for
    /// is loaded: this is what keeps one wallpaper per dedup key.
    pub fn bind_loaded(
        &mut self,
        layer: usize,
        file: WallpaperFile,
        target: &Option<AccelTarget>,
        backing: Backing,
        buffer_ready: bool,
    ) -> (id: usize)
        requires
            old(self).wf(),
            layer < old(self).background_layers@.len(),
            backing_matches(backing, *target),
            !old(self).has_match(layer as int, file, *target),
        ensures
            final(self).wf(),
            id == old(self).wallpapers@.len(),
            final(self).wallpapers@.len() == id + 1,
            forall|k: int| 0 <= k < id ==> final(self).wallpapers@[k] == old(self).wallpapers@[k],
            final(self).is_live(id as int),
            final(self).wallpaper(id as int).canon_path@ == file.canon_path@,
            final(self).wallpaper(id as int).canon_modified == file.canon_modified,
            final(self).wallpaper(id as int).width == old(self).background_layers@[layer as int].width,
            final(self).wallpaper(id as int).height == old(self).background_layers@[layer as int].height,
            final(self).wallpaper(id as int).transform == old(self).background_layers@[layer as int].transform,
            final(self).wallpaper(id as int).backing == backing,
            final(self).wallpaper(id as int).buffer_ready == buffer_ready,
            final(self).background_layers@.len() == old(self).background_layers@.len(),
            forall|i: int|
                0 <= i < final(self).background_layers@.len() && i != layer ==> final(self).background_layers@[i]
                    == old(self).background_layers@[i],
            same_but_bindings(final(self).background_layers@[layer as int], old(self).background_layers@[layer as int]),
            final(self).background_layers@[layer as int].workspace_backgrounds@ == old(self).background_layers@[layer as int].workspace_backgrounds@.push(
                WorkspaceBackground {
                    workspace_name: file.workspace,
                    workspace_number: file.workspace_number,
                    wallpaper: id,
                },
            ),
            old(self).layer_host_backed(layer as int) && target is None ==> final(self).layer_host_backed(layer as int),
    {
        let ghost old_self = *self;
        let ghost file_view = file;
        let id = self.wallpapers.len();
        let width = self.background_layers[layer].width;
        let height = self.background_layers[layer].height;
        let transform = self.background_layers[layer].transform;
        let wallpaper = Wallpaper {
            canon_path: file.canon_path,
            canon_modified: file.canon_modified,
            width,
            height,
            transform,
            backing,
            buffer_ready,
        };
        self.wallpapers.push(Some(wallpaper));
        let ghost mid = *self;
        assert forall|k: int| #[trigger] old_self.is_live(k) implies mid.is_live(k) && mid.wallpaper(k)
            == old_self.wallpaper(k) by {}
        let binding = WorkspaceBackground {
            workspace_name: file.workspace,
            workspace_number: file.workspace_number,
            wallpaper: id,
        };
        let ghost gb = binding;
        self.background_layers[layer].workspace_backgrounds.push(binding);
        proof {
            let bs = self.background_layers@[layer as int].workspace_backgrounds@;
            let ghost ob = old_self.background_layers@[layer as int].workspace_backgrounds@;
            let ghost nb = self.background_layers@[layer as int].workspace_backgrounds@;
            assert(nb == ob.push(gb));
            assert forall|j: int| 0 <= j < nb.len() implies #[trigger] self.is_live(nb[j].wallpaper as int) by {
                if j < ob.len() {
                    assert(nb[j] == ob[j]);
                    assert(old_self.is_live(old_self.background_layers@[layer as int].workspace_backgrounds@[j].wallpaper as int));
                    assert(mid.is_live(old_self.background_layers@[layer as int].workspace_backgrounds@[j].wallpaper as int));
                }
            }
            assert(bs[bs.len() - 1].wallpaper == id);
            lemma_refs_live_after_layer_change(old_self, *self, layer as int);
            assert forall|k: int| #[trigger] self.is_live(k) implies self.references(k) by {
                if k == id {
                    assert(layer_references(self.background_layers@[layer as int], k));
                } else {
                    assert(old_self.is_live(k));
                    let i = choose|i: int|
                        0 <= i < old_self.background_layers@.len() && layer_references(
                            old_self.background_layers@[i],
                            k,
                        );
                    if i == layer && old_self.background_layers@[i].current_wallpaper != Some(k as usize) {
                        let j = choose|j: int|
                            0 <= j < old_self.background_layers@[i].workspace_backgrounds@.len()
                                && old_self.background_layers@[i].workspace_backgrounds@[j].wallpaper == k;
                        assert(self.background_layers@[i].workspace_backgrounds@[j] == old_self.background_layers@[i].workspace_backgrounds@[j]);
                    }
                    assert(layer_references(self.background_layers@[i], k));
                }
            }
            assert forall|a: int, b: int|
                self.is_live(a) && self.is_live(b) && a != b implies !same_key(
                #[trigger] self.wallpaper(a),
                #[trigger] self.wallpaper(b),
            ) by {
                if a == id {
                    assert(old_self.is_live(b));
                    if same_key(self.wallpaper(a), self.wallpaper(b)) {
                        assert(wallpaper_matches(old_self.wallpaper(b), file_view, width, height, transform, *target));
                    }
                } else if b == id {
                    assert(old_self.is_live(a));
                    if same_key(self.wallpaper(a), self.wallpaper(b)) {
                        assert(wallpaper_matches(old_self.wallpaper(a), file_view, width, height, transform, *target));
                    }
                } else {
                    assert(old_self.is_live(a) && old_self.is_live(b));
                }
            }
            if old_self.layer_host_backed(layer as int) && target is None {
                assert forall|j: int| 0 <= j < nb.len() implies self.wallpaper(
                    #[trigger] nb[j].wallpaper as int,
                ).backing == Backing::Host by {
                    if j < ob.len() {
                        assert(nb[j] == ob[j]);
                        assert(old_self.is_live(ob[j].wallpaper as int));
                    }
                }
            }
        }
        id
    }

    /// Shows workspace `workspace_name` (number `workspace_number`) on layer
    /// `layer`: attaches its wallpaper, or queues it while its buffer object
    /// does not exist yet. Returns the outcome and the wallpapers released.
    pub fn draw_workspace_bg(&mut self, layer: usize, workspace_name: &str, workspace_number: i32) -> (r: (
        DrawOutcome,
        Vec<usize>,
    ))
        requires
            old(self).wf(),
            layer < old(self).background_layers@.len(),
        ensures
            final(self).wf(),
            ({
                let l = old(self).background_layers@[layer as int];
                let bs = l.workspace_backgrounds@;
                &&& (r.0 is NotConfigured <==> !l.configured)
                &&& (r.0 is NoWallpaper <==> l.configured && selects(bs, workspace_name@, workspace_number, None))
                &&& (r.0 is NotConfigured || r.0 is NoWallpaper || r.0 is AlreadyShown) ==> (final(self).background_layers@
                    == old(self).background_layers@ && final(self).wallpapers@ == old(self).wallpapers@
                    && r.1@.len() == 0)
                &&& r.0 matches DrawOutcome::AlreadyShown(id) ==> exists|j: int|
                    selects(bs, workspace_name@, workspace_number, Some(j)) && bs[j].wallpaper == id
                        && l.current_wallpaper == Some(id)
                &&& r.0 matches DrawOutcome::Pending(id) ==> {
                    &&& exists|j: int|
                        selects(bs, workspace_name@, workspace_number, Some(j)) && bs[j].wallpaper == id
                    &&& l.current_wallpaper != Some(id)
                    &&& !old(self).wallpaper(id as int).buffer_ready
                    &&& final(self).wallpapers@ == old(self).wallpapers@
                    &&& final(self).background_layers@ == old(self).background_layers@.update(
                        layer as int,
                        BackgroundLayer { queued_wallpaper: Some(id), ..l },
                    )
                    &&& r.1@.len() == 0
                }
                &&& r.0 matches DrawOutcome::Attach(id) ==> {
                    &&& exists|j: int|
                        selects(bs, workspace_name@, workspace_number, Some(j)) && bs[j].wallpaper == id
                    &&& l.current_wallpaper != Some(id)
                    &&& old(self).wallpaper(id as int).buffer_ready
                    &&& final(self).background_layers@ == old(self).background_layers@.update(
                        layer as int,
                        BackgroundLayer { current_wallpaper: Some(id), queued_wallpaper: None, ..l },
                    )
                    &&& final(self).wallpapers@.len() == old(self).wallpapers@.len()
                    &&& forall|k: int|
                        #[trigger] final(self).is_live(k) == (old(self).is_live(k) && final(self).references(k))
                    &&& forall|k: int|
                        #[trigger] final(self).is_live(k) ==> final(self).wallpaper(k) == old(self).wallpaper(k)
                    &&& forall|k: usize|
                        #[trigger] r.1@.contains(k) == (old(self).is_live(k as int) && !final(self).references(
                            k as int,
                        ))
                }
            }),
    {
        let ghost old_self = *self;
        assert(forall|j: int|
            0 <= j < old_self.background_layers@[layer as int].workspace_backgrounds@.len()
                ==> #[trigger] old_self.is_live(
                old_self.background_layers@[layer as int].workspace_backgrounds@[j].wallpaper as int,
            ));
        assert forall|j: int|
            0 <= j < old_self.background_layers@[layer as int].workspace_backgrounds@.len() implies #[trigger] old_self.background_layers@[layer as int].workspace_backgrounds@[j].wallpaper
                < self.wallpapers@.len() by {
            assert(old_self.is_live(old_self.background_layers@[layer as int].workspace_backgrounds@[j].wallpaper as int));
        }
        let outcome = self.background_layers[layer].draw_workspace_bg(
            workspace_name,
            workspace_number,
            &self.wallpapers,
        );
        let id = match outcome {
            DrawOutcome::Attach(id) => id,
            _ => {
                proof {
                    let bs = old_self.background_layers@[layer as int].workspace_backgrounds@;
                    if !(outcome is Pending) {
                        assert(self.background_layers@ =~= old_self.background_layers@);
                    } else {
                        let pid = outcome->Pending_0;
                        let jj = choose|jj: int|
                            selects(bs, workspace_name@, workspace_number, Some(jj)) && bs[jj].wallpaper == pid;
                        assert(selects(bs, workspace_name@, workspace_number, Some(jj)));
                        assert(old_self.is_live(bs[jj].wallpaper as int));
                    }
                    lemma_same_refs(old_self, *self);
                }
                return (outcome, Vec::new());
            },
        };
        proof {
            let ghost nb = self.background_layers@[layer as int].workspace_backgrounds@;
            assert(nb == old_self.background_layers@[layer as int].workspace_backgrounds@);
            assert forall|j: int| 0 <= j < nb.len() implies #[trigger] self.is_live(nb[j].wallpaper as int) by {
                assert(old_self.is_live(old_self.background_layers@[layer as int].workspace_backgrounds@[j].wallpaper as int));
            }
            let jj = choose|jj: int|
                selects(nb, workspace_name@, workspace_number, Some(jj)) && nb[jj].wallpaper == id;
            assert(selects(nb, workspace_name@, workspace_number, Some(jj)));
            assert(0 <= jj < nb.len());
            assert(self.is_live(nb[jj].wallpaper as int));
            lemma_refs_live_after_layer_change(old_self, *self, layer as int);
        }
        let released = self.collect_garbage();
        (DrawOutcome::Attach(id), released)
    }

    /// Records that the buffer object of wallpaper `id` now exists, and attaches
    /// it on every layer where it was queued. Returns those layers and the
    /// wallpapers released.
    pub fn buffer_created(&mut self, id: usize) -> (r: (Vec<usize>, Vec<usize>))
        requires
            old(self).wf(),
        ensures
            final(self).wf(),
            !old(self).is_live(id as int) ==> *final(self) == *old(self) && r.0@.len() == 0 && r.1@.len() == 0,
            old(self).is_live(id as int) ==> {
                &&& final(self).is_live(id as int)
                &&& final(self).wallpaper(id as int).buffer_ready
                &&& same_key(final(self).wallpaper(id as int), old(self).wallpaper(id as int))
                &&& forall|k: int|
                    #[trigger] final(self).is_live(k) && k != id ==> final(self).wallpaper(k) == old(self).wallpaper(k)
                &&& final(self).background_layers@.len() == old(self).background_layers@.len()
                &&& forall|i: int|
                    0 <= i < old(self).background_layers@.len() ==> #[trigger] final(self).background_layers@[i]
                        == if old(self).background_layers@[i].queued_wallpaper == Some(id) {
                        BackgroundLayer {
                            current_wallpaper: Some(id),
                            queued_wallpaper: None,
                            ..old(self).background_layers@[i]
                        }
                    } else {
                        old(self).background_layers@[i]
                    }
                &&& forall|i: usize|
                    #[trigger] r.0@.contains(i) == (i < old(self).background_layers@.len()
                        && old(self).background_layers@[i as int].queued_wallpaper == Some(id))
                &&& final(self).wallpapers@.len() == old(self).wallpapers@.len()
                &&& forall|k: int|
                    #[trigger] final(self).is_live(k) == (old(self).is_live(k) && final(self).references(k))
                &&& forall|k: usize|
                    #[trigger] r.1@.contains(k) == (old(self).is_live(k as int) && !final(self).references(k as int))
            },
    {
        if id >= self.wallpapers.len() || self.wallpapers[id].is_none() {
            return (Vec::new(), Vec::new());
        }
        let ghost old_self = *self;
        if let Some(w) = &mut self.wallpapers[id] {
            w.buffer_ready = true;
        }
        let ghost mid = *self;
        assert(mid.is_live(id as int) && same_key(mid.wallpaper(id as int), old_self.wallpaper(id as int)));
        assert forall|k: int| #[trigger] mid.is_live(k) == old_self.is_live(k) by {}
        assert forall|k: int| #[trigger] mid.is_live(k) && k != id implies mid.wallpaper(k) == old_self.wallpaper(k) by {}
        assert(mid.keys_unique()) by {
            assert forall|x: int, y: int|
                mid.is_live(x) && mid.is_live(y) && x != y implies !same_key(
                #[trigger] mid.wallpaper(x),
                #[trigger] mid.wallpaper(y),
            ) by {
                assert(old_self.is_live(x) && old_self.is_live(y));
                assert(!same_key(old_self.wallpaper(x), old_self.wallpaper(y)));
            }
        }
        let mut attached: Vec<usize> = Vec::new();
        let mut i: usize = 0;
        while i < self.background_layers.len()
            invariant
                self.wallpapers@ == mid.wallpapers@,
                self.background_layers@.len() == old_self.background_layers@.len(),
                i <= self.background_layers@.len(),
                mid.is_live(id as int),
                forall|k: int|
                    0 <= k < i ==> #[trigger] self.background_layers@[k] == if old_self.background_layers@[k].queued_wallpaper
                        == Some(id) {
                        BackgroundLayer {
                            current_wallpaper: Some(id),
                            queued_wallpaper: None,
                            ..old_self.background_layers@[k]
                        }
                    } else {
                        old_self.background_layers@[k]
                    },
                forall|k: int| i <= k < self.background_layers@.len() ==> self.background_layers@[k] == old_self.background_layers@[k],
                forall|k: usize|
                    #[trigger] attached@.contains(k) == (k < i && old_self.background_layers@[k as int].queued_wallpaper
                        == Some(id)),
            decreases self.background_layers@.len() - i,
        {
            let ghost before = attached@;
            let queued_here = self.background_layers[i].queued_wallpaper == Some(id);
            if queued_here {
                self.background_layers[i].current_wallpaper = Some(id);
                self.background_layers[i].queued_wallpaper = None;
                attached.push(i);
            }
            proof {
                lemma_push_contains(before, attached@, i, queued_here);
                assert forall|k: usize|
                    #[trigger] attached@.contains(k) == (k < i + 1 && old_self.background_layers@[k as int].queued_wallpaper
                        == Some(id)) by {
                    assert(before.contains(k) == (k < i && old_self.background_layers@[k as int].queued_wallpaper
                        == Some(id)));
                }
            }
            i = i + 1;
        }
        proof {
            assert forall|a: int, j: int|
                0 <= a < self.background_layers@.len() && 0 <= j
                    < self.background_layers@[a].workspace_backgrounds@.len() implies #[trigger] self.is_live(
                    self.background_layers@[a].workspace_backgrounds@[j].wallpaper as int,
                ) by {
                assert(self.background_layers@[a].workspace_backgrounds == old_self.background_layers@[a].workspace_backgrounds);
                assert(old_self.is_live(old_self.background_layers@[a].workspace_backgrounds@[j].wallpaper as int));
            }
            assert forall|a: int|
                0 <= a < self.background_layers@.len() && (#[trigger] self.background_layers@[a]).current_wallpaper is Some
                    implies self.is_live(self.background_layers@[a].current_wallpaper->Some_0 as int) by {
                if old_self.background_layers@[a].queued_wallpaper != Some(id) {
                    assert(old_self.background_layers@[a] == self.background_layers@[a]);
                }
            }
            assert forall|x: int, y: int|
                self.is_live(x) && self.is_live(y) && x != y implies !same_key(
                #[trigger] self.wallpaper(x),
                #[trigger] self.wallpaper(y),
            ) by {
                assert(mid.is_live(x) && mid.is_live(y));
                assert(mid.wallpaper(x) == self.wallpaper(x) && mid.wallpaper(y) == self.wallpaper(y));
            }
            assert(old_self.is_live(id as int));
            let i0 = choose|i: int|
                0 <= i < old_self.background_layers@.len() && layer_references(old_self.background_layers@[i], id as int);
            if old_self.background_layers@[i0].queued_wallpaper == Some(id) {
                assert(self.background_layers@[i0].current_wallpaper == Some(id));
            } else {
                assert(self.background_layers@[i0] == old_self.background_layers@[i0]);
            }
            assert(layer_references(self.background_layers@[i0], id as int));
        }
        let ghost pre = *self;
        let released = self.collect_garbage();
        proof {
            assert forall|k: int| #[trigger] self.is_live(k) && k != id implies self.wallpaper(k) == old_self.wallpaper(k) by {
                assert(pre.is_live(k) && mid.is_live(k));
            }
            assert forall|k: int| #[trigger] self.is_live(k) == (old_self.is_live(k) && self.references(k)) by {
                assert(pre.is_live(k) == mid.is_live(k));
                assert(pre.references(k) == self.references(k));
            }
            assert forall|k: usize|
                #[trigger] released@.contains(k) == (old_self.is_live(k as int) && !self.references(k as int)) by {
                assert(pre.is_live(k as int) == mid.is_live(k as int));
                assert(pre.references(k as int) == self.references(k as int));
            }
            assert(pre.is_live(id as int) && pre.references(id as int));
            assert(self.is_live(id as int));
            assert(self.wallpaper(id as int) == mid.wallpaper(id as int));
        }
        (attached, released)
    }

    /// The layers that bind some workspace to wallpaper `id`.
    pub fn layers_bound_to(&self, id: usize) -> (r: Vec<usize>)
        ensures
            forall|i: usize|
                #[trigger] r@.contains(i) == (i < self.background_layers@.len() && exists|j: int|
                    0 <= j < self.background_layers@[i as int].workspace_backgrounds@.len()
                        && self.background_layers@[i as int].workspace_backgrounds@[j].wallpaper == id),
    {
        let mut r: Vec<usize> = Vec::new();
        let mut i: usize = 0;
        while i < self.background_layers.len()
            invariant
                i <= self.background_layers@.len(),
                forall|k: usize|
                    #[trigger] r@.contains(k) == (k < i && exists|j: int|
                        0 <= j < self.background_layers@[k as int].workspace_backgrounds@.len()
                            && self.background_layers@[k as int].workspace_backgrounds@[j].wallpaper == id),
            decreases self.background_layers@.len() - i,
        {
            let l = &self.background_layers[i];
            let mut j: usize = 0;
            let mut found = false;
            while j < l.workspace_backgrounds.len()
                invariant
                    j <= l.workspace_backgrounds@.len(),
                    found == exists|m: int| 0 <= m < j && l.workspace_backgrounds@[m].wallpaper == id,
                decreases l.workspace_backgrounds@.len() - j,
            {
                if l.workspace_backgrounds[j].wallpaper == id {
                    found = true;
                }
                j = j + 1;
            }
            let ghost before = r@;
            if found {
                r.push(i);
                assert(r@[r@.len() - 1] == i);
            }
            assert forall|k: usize|
                #[trigger] r@.contains(k) == (k < i + 1 && exists|m: int|
                    0 <= m < self.background_layers@[k as int].workspace_backgrounds@.len()
                        && self.background_layers@[k as int].workspace_backgrounds@[m].wallpaper == id) by {
                if k == i {
                    assert(!before.contains(i));
                }
                if k != i && r@.contains(k) {
                    let m = choose|m: int| 0 <= m < r@.len() && r@[m] == k;
                    assert(m < before.len() && before[m] == k);
                }
                if k < i && before.contains(k) {
                    let m = choose|m: int| 0 <= m < before.len() && before[m] == k;
                    assert(r@[m] == k);
                }
            }
            i = i + 1;
        }
        r
    }

    /// Clears the bindings of layer `layer` before its wallpapers are loaded
    /// again, and returns the wallpapers released.
    pub fn clear_bindings(&mut self, layer: usize) -> (released: Vec<usize>)
        requires
            old(self).wf(),
            layer < old(self).background_layers@.len(),
        ensures
            final(self).wf(),
            final(self).background_layers@.len() == old(self).background_layers@.len(),
            forall|i: int|
                0 <= i < final(self).background_layers@.len() && i != layer ==> final(self).background_layers@[i]
                    == old(self).background_layers@[i],
            same_but_bindings(final(self).background_layers@[layer as int], old(self).background_layers@[layer as int]),
            final(self).background_layers@[layer as int].workspace_backgrounds@.len() == 0,
            final(self).wallpapers@.len() == old(self).wallpapers@.len(),
            forall|k: int| #[trigger] final(self).is_live(k) == (old(self).is_live(k) && final(self).references(k)),
            forall|k: int| #[trigger] final(self).is_live(k) ==> final(self).wallpaper(k) == old(self).wallpaper(k),
            forall|k: usize|
                #[trigger] released@.contains(k) == (old(self).is_live(k as int) && !final(self).references(k as int)),
    {
        let ghost old_self = *self;
        self.background_layers[layer].workspace_backgrounds.clear();
        proof {
            lemma_refs_live_after_layer_change(old_self, *self, layer as int);
        }
        self.collect_garbage()
    }

    /// Abandons zero-copy buffers on layer `layer`: drops its feedback, its
    /// bindings, its attached and queued wallpapers, so that its wallpapers are
    /// loaded again into host memory. Returns the wallpapers released.
    pub fn fallback_to_host(&mut self, layer: usize) -> (released: Vec<usize>)
        requires
            old(self).wf(),
            layer < old(self).background_layers@.len(),
        ensures
            final(self).wf(),
            final(self).background_layers@ == old(self).background_layers@.update(
                layer as int,
                final(self).background_layers@[layer as int],
            ),
            ({
                let l = final(self).background_layers@[layer as int];
                let o = old(self).background_layers@[layer as int];
                &&& l.output_name == o.output_name
                &&& l.width == o.width
                &&& l.height == o.height
                &&& l.transform == o.transform
                &&& l.configured == o.configured
                &&& l.workspace_backgrounds@.len() == 0
                &&& l.current_wallpaper is None
                &&& l.queued_wallpaper is None
                &&& !l.zero_copy_feedback
            }),
            final(self).layer_host_backed(layer as int),
            forall|k: int|
                #[trigger] final(self).is_live(k) ==> exists|i: int|
                    0 <= i < final(self).background_layers@.len() && i != layer && layer_references(
                        final(self).background_layers@[i],
                        k,
                    ),
            final(self).wallpapers@.len() == old(self).wallpapers@.len(),
            forall|k: int| #[trigger] final(self).is_live(k) == (old(self).is_live(k) && final(self).references(k)),
            forall|k: int| #[trigger] final(self).is_live(k) ==> final(self).wallpaper(k) == old(self).wallpaper(k),
            forall|k: usize|
                #[trigger] released@.contains(k) == (old(self).is_live(k as int) && !final(self).references(k as int)),
    {
        let ghost old_self = *self;
        self.background_layers[layer].workspace_backgrounds.clear();
        self.background_layers[layer].current_wallpaper = None;
        self.background_layers[layer].queued_wallpaper = None;
        self.background_layers[layer].zero_copy_feedback = false;
        proof {
            lemma_refs_live_after_layer_change(old_self, *self, layer as int);
        }
        let released = self.collect_garbage();
        proof {
            assert(self.background_layers@ =~= old_self.background_layers@.update(
                layer as int,
                self.background_layers@[layer as int],
            ));
            assert forall|k: int| #[trigger] self.is_live(k) implies exists|i: int|
                0 <= i < self.background_layers@.len() && i != layer && layer_references(
                    self.background_layers@[i],
                    k,
                ) by {
                let i = choose|i: int|
                    0 <= i < self.background_layers@.len() && layer_references(self.background_layers@[i], k);
                assert(i != layer);
            }
        }
        released
    }

    /// The first layer of output `output_name`.
    pub fn find_layer(&self, output_name: &str) -> (r: Option<usize>)
        ensures
            r matches Some(i) ==> i < self.background_layers@.len()
                && self.background_layers@[i as int].output_name@ == output_name@
                && forall|k: int| 0 <= k < i ==> self.background_layers@[k].output_name@ != output_name@,
            r is None ==> forall|k: int|
                0 <= k < self.background_layers@.len() ==> self.background_layers@[k].output_name@ != output_name@,
    {
        let name = output_name.to_owned();
        let mut i: usize = 0;
        while i < self.background_layers.len()
            invariant
                i <= self.background_layers@.len(),
                name@ == output_name@,
                forall|k: int| 0 <= k < i ==> self.background_layers@[k].output_name@ != output_name@,
            decreases self.background_layers@.len() - i,
        {
            if self.background_layers[i].output_name == name {
                return Some(i);
            }
            i = i + 1;
        }
        None
    }

    /// Marks layer `layer` configured; true on its first configuration.
    pub fn mark_configured(&mut self, layer: usize) -> (first: bool)
        requires
            old(self).wf(),
            layer < old(self).background_layers@.len(),
        ensures
            final(self).wf(),
            first == !old(self).background_layers@[layer as int].configured,
            final(self).wallpapers@ == old(self).wallpapers@,
            final(self).background_layers@ == old(self).background_layers@.update(
                layer as int,
                BackgroundLayer { configured: true, ..old(self).background_layers@[layer as int] },
            ),
    {
        let first = !self.background_layers[layer].configured;
        let ghost old_self = *self;
        self.background_layers[layer].configured = true;
        proof {
            lemma_same_refs(old_self, *self);
            assert(self.background_layers@ =~= old_self.background_layers@.update(
                layer as int,
                BackgroundLayer { configured: true, ..old_self.background_layers@[layer as int] },
            ));
        }
        first
    }

    /// Whether new feedback for layer `layer` changes nothing: it has bindings,
    /// and each is in accelerator memory that the target accepts.
    pub fn feedback_unchanged(&self, layer: usize, target: &AccelTarget) -> (r: bool)
        requires
            self.wf(),
            layer < self.background_layers@.len(),
        ensures
            r == ({
                let bs = self.background_layers@[layer as int].workspace_backgrounds@;
                bs.len() > 0 && forall|j: int|
                    0 <= j < bs.len() ==> backing_matches(
                        self.wallpaper(#[trigger] bs[j].wallpaper as int).backing,
                        Some(*target),
                    )
            }),
    {
        let l = &self.background_layers[layer];
        if l.workspace_backgrounds.len() == 0 {
            return false;
        }
        let mut j: usize = 0;
        while j < l.workspace_backgrounds.len()
            invariant
                self.wf(),
                layer < self.background_layers@.len(),
                *l == self.background_layers@[layer as int],
                j <= l.workspace_backgrounds@.len(),
                forall|m: int|
                    0 <= m < j ==> backing_matches(
                        self.wallpaper(#[trigger] l.workspace_backgrounds@[m].wallpaper as int).backing,
                        Some(*target),
                    ),
            decreases l.workspace_backgrounds@.len() - j,
        {
            let id = l.workspace_backgrounds[j].wallpaper;
            assert(self.is_live(id as int));
            let ok = match &self.wallpapers[id] {
                Some(w) => match w.backing {
                    Backing::Accelerated { device, modifier } => device.dmabuf_drm_dev_eq(target.dmabuf_dev)
                        && contains_modifier(&target.modifiers, modifier),
                    Backing::Host => false,
                },
                None => false,
            };
            if !ok {
                return false;
            }
            j = j + 1;
        }
        true
    }

    /// Removes the layer of a destroyed output. Returns its index and the
    /// wallpapers released: exactly those that no other layer refers to.
    pub fn remove_output(&mut self, output_name: &str) -> (r: Option<(usize, Vec<usize>)>)
        requires
            old(self).wf(),
        ensures
            final(self).wf(),
            r is None ==> *final(self) == *old(self) && forall|k: int|
                0 <= k < old(self).background_layers@.len() ==> old(self).background_layers@[k].output_name@
                    != output_name@,
            r matches Some((idx, released)) ==> {
                &&& idx < old(self).background_layers@.len()
                &&& old(self).background_layers@[idx as int].output_name@ == output_name@
                &&& final(self).background_layers@ == old(self).background_layers@.remove(idx as int)
                &&& final(self).wallpapers@.len() == old(self).wallpapers@.len()
                &&& forall|k: int| #[trigger] final(self).is_live(k) ==> final(self).wallpaper(k) == old(self).wallpaper(k)
                &&& forall|k: int|
                    #[trigger] old(self).is_live(k) ==> (final(self).is_live(k) <==> exists|i: int|
                        0 <= i < old(self).background_layers@.len() && i != idx && layer_references(
                            old(self).background_layers@[i],
                            k,
                        ))
                &&& forall|k: usize|
                    #[trigger] released@.contains(k) == (old(self).is_live(k as int) && !final(self).references(
                        k as int,
                    ))
                &&& forall|k: int| #[trigger] final(self).is_live(k) ==> old(self).is_live(k)
            },
    {
        let idx = match self.find_layer(output_name) {
            Some(idx) => idx,
            None => return None,
        };
        let ghost old_self = *self;
        let _removed = self.background_layers.remove(idx);
        let ghost pre = *self;
        proof {
            let ol = old_self.background_layers@;
            let nl = self.background_layers@;
            assert(nl == ol.remove(idx as int));
            assert forall|k: int| #[trigger] pre.references(k) == exists|i: int|
                0 <= i < ol.len() && i != idx && layer_references(ol[i], k) by {
                if pre.references(k) {
                    let i = choose|i: int| 0 <= i < nl.len() && layer_references(nl[i], k);
                    if i < idx {
                        assert(nl[i] == ol[i]);
                    } else {
                        assert(nl[i] == ol[i + 1]);
                    }
                }
                if exists|i: int| 0 <= i < ol.len() && i != idx && layer_references(ol[i], k) {
                    let i = choose|i: int| 0 <= i < ol.len() && i != idx && layer_references(ol[i], k);
                    if i < idx {
                        assert(nl[i] == ol[i]);
                        assert(layer_references(nl[i], k));
                    } else {
                        assert(nl[i - 1] == ol[i]);
                        assert(layer_references(nl[i - 1], k));
                    }
                }
            }
            assert forall|i: int, j: int|
                0 <= i < nl.len() && 0 <= j < nl[i].workspace_backgrounds@.len() implies #[trigger] pre.is_live(
                    pre.background_layers@[i].workspace_backgrounds@[j].wallpaper as int,
                ) by {
                if i < idx {
                    assert(nl[i] == ol[i]);
                    assert(old_self.is_live(ol[i].workspace_backgrounds@[j].wallpaper as int));
                } else {
                    assert(nl[i] == ol[i + 1]);
                    assert(old_self.is_live(ol[i + 1].workspace_backgrounds@[j].wallpaper as int));
                }
            }
            assert forall|i: int|
                0 <= i < nl.len() && (#[trigger] pre.background_layers@[i]).current_wallpaper is Some implies pre.is_live(
                    pre.background_layers@[i].current_wallpaper->Some_0 as int,
                ) by {
                if i < idx {
                    assert(nl[i] == ol[i]);
                } else {
                    assert(nl[i] == ol[i + 1]);
                }
            }
            assert forall|x: int, y: int|
                pre.is_live(x) && pre.is_live(y) && x != y implies !same_key(
                #[trigger] pre.wallpaper(x),
                #[trigger] pre.wallpaper(y),
            ) by {
                assert(old_self.is_live(x) && old_self.is_live(y));
                assert(old_self.wallpaper(x) == pre.wallpaper(x) && old_self.wallpaper(y) == pre.wallpaper(y));
            }
        }
        let released = self.collect_garbage();
        proof {
            assert forall|k: int| #[trigger] old_self.is_live(k) implies (self.is_live(k) <==> exists|i: int|
                0 <= i < old_self.background_layers@.len() && i != idx && layer_references(
                    old_self.background_layers@[i],
                    k,
                )) by {
                assert(pre.is_live(k));
                assert(pre.references(k) == self.references(k));
            }
            assert forall|k: int| #[trigger] self.is_live(k) implies old_self.is_live(k) by {
                assert(pre.is_live(k));
            }
        }
        Some((idx, released))
    }
}

/// A wallpaper file is decoded and uploaded at most once per dedup key: no two
/// live wallpapers share (canonical path, modification time, pixel size,
/// transform, backing), a lookup finds a live wallpaper whenever one can stand
/// for the file, and a load is admitted only where none can.
pub proof fn lemma_one_wallpaper_per_key(s: Scene, a: int, b: int)
    requires
        s.wf(),
        s.is_live(a),
        s.is_live(b),
        same_key(s.wallpaper(a), s.wallpaper(b)),
    ensures
        a == b,
{
}

/// Any two workspace bindings, on the same or different outputs, whose
/// wallpapers have the same dedup key are bound to one shared wallpaper.
pub proof fn lemma_equal_keys_share_wallpaper(s: Scene, i1: int, j1: int, i2: int, j2: int)
    requires
        s.wf(),
        0 <= i1 < s.background_layers@.len(),
        0 <= i2 < s.background_layers@.len(),
        0 <= j1 < s.background_layers@[i1].workspace_backgrounds@.len(),
        0 <= j2 < s.background_layers@[i2].workspace_backgrounds@.len(),
        same_key(
            s.wallpaper(s.background_layers@[i1].workspace_backgrounds@[j1].wallpaper as int),
            s.wallpaper(s.background_layers@[i2].workspace_backgrounds@[j2].wallpaper as int),
        ),
    ensures
        s.background_layers@[i1].workspace_backgrounds@[j1].wallpaper
            == s.background_layers@[i2].workspace_backgrounds@[j2].wallpaper,
{
    let a = s.background_layers@[i1].workspace_backgrounds@[j1].wallpaper as int;
    let b = s.background_layers@[i2].workspace_backgrounds@[j2].wallpaper as int;
    assert(s.is_live(a));
    assert(s.is_live(b));
}

/// A wallpaper that can stand for a file on one layer can stand for it on any
/// layer of the same geometry: once loaded for one output, it is found for
/// every other output with the same pixel size and transform.
pub proof fn lemma_shared_across_outputs(
    s: Scene,
    l1: int,
    l2: int,
    file: WallpaperFile,
    target: Option<AccelTarget>,
)
    requires
        s.wf(),
        0 <= l1 < s.background_layers@.len(),
        0 <= l2 < s.background_layers@.len(),
        s.background_layers@[l1].width == s.background_layers@[l2].width,
        s.background_layers@[l1].height == s.background_layers@[l2].height,
        s.background_layers@[l1].transform == s.background_layers@[l2].transform,
        s.has_match(l1, file, target),
    ensures
        s.has_match(l2, file, target),
{
    let id = choose|id: int|
        s.is_live(id) && wallpaper_matches(
            #[trigger] s.wallpaper(id),
            file,
            s.background_layers@[l1].width,
            s.background_layers@[l1].height,
            s.background_layers@[l1].transform,
            target,
        );
    assert(wallpaper_matches(
        s.wallpaper(id),
        file,
        s.background_layers@[l2].width,
        s.background_layers@[l2].height,
        s.background_layers@[l2].transform,
        target,
    ));
}

} // verus!
