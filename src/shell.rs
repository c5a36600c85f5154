use vstd::prelude::*;

use crate::events::{Commit, LayerShellRequest, ShellAction, ShellEvent, XdgRequest};
use crate::geometry::{Point, Rect, Size};
use crate::edge::ResizeEdge;
use crate::registry::{
    configure_step, entry_survives, has_surface, index_of_surface,
    lemma_configure_step_keeps_surfaces, lemma_filter_contains, lemma_filter_has_surface,
    lemma_marked_is_configured, promote, survives, unique_surfaces,
    LayerEntry, PendingRegistry, PopupEntry, Registry, Surfaced, Window,
};
use crate::surface_data::SurfaceData;

verus! {

/// The auxiliary state slot of one surface.
#[derive(Clone, Copy, Debug, PartialEq, Eq, Structural)]
pub struct SurfaceSlot {
    pub surface: u64,
    pub data: SurfaceData,
}

impl Surfaced for SurfaceSlot {
    open spec fn surface_id(&self) -> u64 {
        self.surface
    }

    fn surface(&self) -> (r: u64) {
        self.surface
    }
}

/// The abstract state of the shell.
pub struct ShellView {
    pub pending: Seq<u64>,
    pub windows: Seq<Window>,
    pub layers: Seq<LayerEntry>,
    pub popups: Seq<PopupEntry>,
    pub slots: Seq<SurfaceSlot>,
}

/// The state a surface's slot starts in.
pub open spec fn fresh_data() -> SurfaceData {
    SurfaceData {
        resize_state: crate::surface_data::ResizeState::NotResizing,
        move_after_resize_state: crate::surface_data::MoveAfterResizeState::Idle,
    }
}

/// Whether surface `s` has a shell role already.
pub open spec fn has_role(v: ShellView, s: u64) -> bool {
    v.pending.contains(s) || has_surface(v.windows, s) || has_surface(v.layers, s)
        || has_surface(v.popups, s)
}

/// A surface holds at most one role, and a pending surface is not mapped.
pub open spec fn roles_disjoint(v: ShellView) -> bool {
    forall|s: u64|
        {
            &&& (v.pending.contains(s) ==> !has_surface(v.windows, s) && !has_surface(v.layers, s)
                && !has_surface(v.popups, s))
            &&& (has_surface(v.windows, s) ==> !has_surface(v.layers, s) && !has_surface(
                v.popups,
                s,
            ))
            &&& (has_surface(v.layers, s) ==> !has_surface(v.popups, s))
        }
}

pub open spec fn view_wf(v: ShellView) -> bool {
    &&& v.pending.no_duplicates()
    &&& unique_surfaces(v.windows)
    &&& unique_surfaces(v.layers)
    &&& unique_surfaces(v.popups)
    &&& unique_surfaces(v.slots)
    &&& roles_disjoint(v)
}

/// The slots after making sure each surface of `ids` has one.
pub open spec fn ensure_slots(slots: Seq<SurfaceSlot>, ids: Seq<u64>) -> Seq<SurfaceSlot>
    decreases ids.len(),
{
    if ids.len() == 0 {
        slots
    } else {
        let before = ensure_slots(slots, ids.drop_last());
        if has_surface(before, ids.last()) {
            before
        } else {
            before.push(SurfaceSlot { surface: ids.last(), data: fresh_data() })
        }
    }
}

/// The auxiliary state of surface `s`.
pub open spec fn slot_data(slots: Seq<SurfaceSlot>, s: u64) -> SurfaceData {
    if has_surface(slots, s) {
        slots[index_of_surface(slots, s)].data
    } else {
        fresh_data()
    }
}

/// The slots with the state of surface `s` set to `d`.
pub open spec fn with_slot(slots: Seq<SurfaceSlot>, s: u64, d: SurfaceData) -> Seq<SurfaceSlot> {
    if has_surface(slots, s) {
        slots.update(index_of_surface(slots, s), SurfaceSlot { surface: s, data: d })
    } else {
        slots.push(SurfaceSlot { surface: s, data: d })
    }
}

pub open spec fn opt_i64(o: Option<int>) -> Option<i64> {
    match o {
        Some(v) => Some(v as i64),
        None => None,
    }
}

/// The resize/move step of a commit of `s`: for a mapped window whose
/// geometry is known, the location it reports and its advanced slot.
pub open spec fn resize_step(
    windows: Seq<Window>,
    slots: Seq<SurfaceSlot>,
    s: u64,
    geometry: Option<Rect>,
) -> (Seq<SurfaceSlot>, Seq<ShellAction>) {
    if has_surface(windows, s) && geometry is Some && has_surface(slots, s) {
        let d = slot_data(slots, s);
        let loc = d.commit_location(geometry->0.size);
        let next = with_slot(slots, s, d.after_commit());
        if loc.0 is Some || loc.1 is Some {
            (
                next,
                seq![
                    ShellAction::Notify(
                        ShellEvent::WindowGotResized {
                            window: windows[index_of_surface(windows, s)],
                            new_location_x: opt_i64(loc.0),
                            new_location_y: opt_i64(loc.1),
                        },
                    ),
                ],
            )
        } else {
            (next, seq![])
        }
    } else {
        (slots, seq![])
    }
}

/// The whole effect of a commit, in the order the actions must happen:
/// window creation, a popup's initial configure, the resize report, a layer
/// surface's initial configure, and last the generic commit notification.
pub open spec fn commit_outcome(v: ShellView, c: Commit) -> (ShellView, Seq<ShellAction>) {
    let slots1 = if c.sync_subsurface {
        v.slots
    } else {
        ensure_slots(v.slots, c.subtree@)
    };
    let (pending1, promoted) = promote(v.pending, c.surface, c.geometry);
    let windows1 = match promoted {
        Some(w) => v.windows.push(w),
        None => v.windows,
    };
    let created = match promoted {
        Some(w) => seq![ShellAction::Notify(ShellEvent::WindowCreated { window: w })],
        None => Seq::<ShellAction>::empty(),
    };
    let (popups1, popup_sent) = configure_step(v.popups, c.surface);
    let popup_configure = if popup_sent {
        seq![ShellAction::SendConfigure(c.surface)]
    } else {
        Seq::<ShellAction>::empty()
    };
    let (slots2, resized) = resize_step(windows1, slots1, c.surface, c.geometry);
    let (layers1, layer_sent) = configure_step(v.layers, c.surface);
    let layer_configure = if layer_sent {
        seq![ShellAction::SendConfigure(c.surface)]
    } else {
        Seq::<ShellAction>::empty()
    };
    (
        ShellView {
            pending: pending1,
            windows: windows1,
            layers: layers1,
            popups: popups1,
            slots: slots2,
        },
        created + popup_configure + resized + layer_configure + seq![
            ShellAction::Notify(ShellEvent::SurfaceCommit { surface: c.surface }),
        ],
    )
}

/// The mapped window of surface `s`, if any.
pub open spec fn window_of(v: ShellView, s: u64) -> Option<Window> {
    if has_surface(v.windows, s) {
        Some(v.windows[index_of_surface(v.windows, s)])
    } else {
        None
    }
}

/// The popup of surface `s`, if any.
pub open spec fn popup_of(v: ShellView, s: u64) -> Option<PopupEntry> {
    if has_surface(v.popups, s) {
        Some(v.popups[index_of_surface(v.popups, s)])
    } else {
        None
    }
}

/// The effect of a layer-shell request. A new layer surface for a surface
/// that already has a role is ignored.
pub open spec fn layer_outcome(v: ShellView, req: LayerShellRequest) -> (ShellView, Option<ShellEvent>) {
    match req {
        LayerShellRequest::NewLayerSurface { surface, output, layer, namespace } => {
            if has_role(v, surface) {
                (v, None)
            } else {
                (
                    ShellView {
                        layers: v.layers.push(
                            LayerEntry {
                                surface,
                                output,
                                layer,
                                namespace,
                                initial_configure_sent: false,
                            },
                        ),
                        ..v
                    },
                    Some(ShellEvent::LayerCreated { surface, output, layer, namespace }),
                )
            }
        },
        LayerShellRequest::AckConfigure { surface, serial } => {
            (v, Some(ShellEvent::LayerAckConfigure { surface, serial }))
        },
    }
}

/// The event a request about a mapped window turns into; nothing when the
/// surface is not a mapped window.
pub open spec fn window_request_event(v: ShellView, req: XdgRequest) -> Option<ShellEvent> {
    match req {
        XdgRequest::Move { surface, serial } => match window_of(v, surface) {
            Some(window) => Some(ShellEvent::WindowMove { window, serial }),
            None => None,
        },
        XdgRequest::Resize { surface, edges, serial } => match window_of(v, surface) {
            Some(window) => Some(ShellEvent::WindowResize { window, edges, serial }),
            None => None,
        },
        XdgRequest::Maximize { surface } => match window_of(v, surface) {
            Some(window) => Some(ShellEvent::WindowMaximize { window }),
            None => None,
        },
        XdgRequest::UnMaximize { surface } => match window_of(v, surface) {
            Some(window) => Some(ShellEvent::WindowUnMaximize { window }),
            None => None,
        },
        XdgRequest::Fullscreen { surface, output } => match window_of(v, surface) {
            Some(window) => Some(ShellEvent::WindowFullscreen { window, output }),
            None => None,
        },
        XdgRequest::UnFullscreen { surface } => match window_of(v, surface) {
            Some(window) => Some(ShellEvent::WindowUnFullscreen { window }),
            None => None,
        },
        XdgRequest::Minimize { surface } => match window_of(v, surface) {
            Some(window) => Some(ShellEvent::WindowMinimize { window }),
            None => None,
        },
        XdgRequest::ShowWindowMenu { surface, serial, location } => match window_of(v, surface) {
            Some(window) => Some(ShellEvent::ShowWindowMenu { window, serial, location }),
            None => None,
        },
        _ => None,
    }
}

/// The effect of an xdg-shell request. A new role for a surface that already
/// has one is ignored, and so is a request about an unknown surface.
pub open spec fn xdg_outcome(v: ShellView, req: XdgRequest) -> (ShellView, Option<ShellEvent>) {
    match req {
        XdgRequest::NewToplevel { surface } => if has_role(v, surface) {
            (v, None)
        } else {
            (ShellView { pending: v.pending.push(surface), ..v }, None)
        },
        XdgRequest::NewPopup { surface, parent, geometry } => if has_role(v, surface) {
            (v, None)
        } else {
            let popup = PopupEntry { surface, parent, geometry, initial_configure_sent: false };
            (ShellView { popups: v.popups.push(popup), ..v }, Some(ShellEvent::PopupCreated { popup }))
        },
        XdgRequest::Grab { surface, serial } => match popup_of(v, surface) {
            Some(popup) => (v, Some(ShellEvent::PopupGrab { popup, serial })),
            None => (v, None),
        },
        XdgRequest::AckConfigure { surface, serial } => if has_surface(v.slots, surface) {
            (
                ShellView {
                    slots: with_slot(v.slots, surface, slot_data(v.slots, surface).acked(serial)),
                    ..v
                },
                None,
            )
        } else {
            (v, None)
        },
        _ => (v, window_request_event(v, req)),
    }
}

/// What `refresh` leaves: every entry and slot of a surface in `dead` is gone,
/// and the survivors keep their order.
pub open spec fn refreshed(v: ShellView, dead: Seq<u64>) -> ShellView {
    ShellView {
        pending: v.pending.filter(survives(dead)),
        windows: v.windows.filter(entry_survives::<Window>(dead)),
        layers: v.layers.filter(entry_survives::<LayerEntry>(dead)),
        popups: v.popups.filter(entry_survives::<PopupEntry>(dead)),
        slots: v.slots.filter(entry_survives::<SurfaceSlot>(dead)),
    }
}

/// A surface that is pending is in no mapped registry, in every state the
/// shell can be in.
pub proof fn lemma_pending_never_mapped(v: ShellView, s: u64)
    requires
        view_wf(v),
    ensures
        v.pending.contains(s) ==> !has_surface(v.windows, s) && !has_surface(v.layers, s),
{
}

/// The state after the commits `cs`, in order.
pub open spec fn run_commits(v: ShellView, cs: Seq<Commit>) -> ShellView
    decreases cs.len(),
{
    if cs.len() == 0 {
        v
    } else {
        commit_outcome(run_commits(v, cs.drop_last()), cs.last()).0
    }
}

/// Whether commit `c` sends an initial configure.
pub open spec fn commit_sends_configure(v: ShellView, c: Commit) -> bool {
    commit_outcome(v, c).1.contains(ShellAction::SendConfigure(c.surface))
}

/// Surface `s` has no initial configure left to send.
pub open spec fn configure_done(v: ShellView, s: u64) -> bool {
    !configure_step(v.layers, s).1 && !configure_step(v.popups, s).1
}

proof fn lemma_commit_configures(v: ShellView, c: Commit)
    requires
        unique_surfaces(v.layers),
        unique_surfaces(v.popups),
    ensures
        unique_surfaces(commit_outcome(v, c).0.layers),
        unique_surfaces(commit_outcome(v, c).0.popups),
        configure_done(commit_outcome(v, c).0, c.surface),
        configure_done(v, c.surface) ==> !commit_sends_configure(v, c),
{
    let next = commit_outcome(v, c).0;
    lemma_configure_step_keeps_surfaces(v.layers, c.surface);
    lemma_configure_step_keeps_surfaces(v.popups, c.surface);
    if configure_step(v.layers, c.surface).1 {
        lemma_marked_is_configured(v.layers, c.surface);
    }
    if configure_step(v.popups, c.surface).1 {
        lemma_marked_is_configured(v.popups, c.surface);
    }
    if configure_done(v, c.surface) {
        let acts = commit_outcome(v, c).1;
        assert forall|k: int| 0 <= k < acts.len() implies acts[k] is Notify by {
        }
        if acts.contains(ShellAction::SendConfigure(c.surface)) {
            let k = choose|k: int| 0 <= k < acts.len() && acts[k] == ShellAction::SendConfigure(c.surface);
            assert(acts[k] is Notify);
        }
    }
}

proof fn lemma_run_keeps_unique(v: ShellView, cs: Seq<Commit>)
    requires
        unique_surfaces(v.layers),
        unique_surfaces(v.popups),
    ensures
        unique_surfaces(run_commits(v, cs).layers),
        unique_surfaces(run_commits(v, cs).popups),
    decreases cs.len(),
{
    if cs.len() > 0 {
        lemma_run_keeps_unique(v, cs.drop_last());
        lemma_commit_configures(run_commits(v, cs.drop_last()), cs.last());
    }
}

/// However many commits of a surface follow one another, only the first can
/// send the surface's initial configure: every later one sends none.
pub proof fn lemma_initial_configure_sent_once(v: ShellView, s: u64, cs: Seq<Commit>, j: int)
    requires
        view_wf(v),
        forall|k: int| 0 <= k < cs.len() ==> #[trigger] cs[k].surface == s,
        1 <= j < cs.len(),
    ensures
        !commit_sends_configure(run_commits(v, cs.take(j)), cs[j]),
{
    let before = cs.take(j - 1);
    assert(cs.take(j).drop_last() =~= before);
    assert(cs.take(j).last() == cs[j - 1]);
    lemma_run_keeps_unique(v, before);
    let u = run_commits(v, before);
    lemma_commit_configures(u, cs[j - 1]);
    let w = run_commits(v, cs.take(j));
    assert(w == commit_outcome(u, cs[j - 1]).0);
    assert(cs[j - 1].surface == s && cs[j].surface == s);
    lemma_commit_configures(w, cs[j]);
}

/// The shell: every surface with a role, from creation to destruction.
pub struct ShellManager {
    not_mapped_list: PendingRegistry,
    windows: Registry<Window>,
    layers: Registry<LayerEntry>,
    popups: Registry<PopupEntry>,
    slots: Registry<SurfaceSlot>,
}

impl View for ShellManager {
    type V = ShellView;

    closed spec fn view(&self) -> ShellView {
        ShellView {
            pending: self.not_mapped_list@,
            windows: self.windows@,
            layers: self.layers@,
            popups: self.popups@,
            slots: self.slots@,
        }
    }
}

impl ShellManager {
    pub open spec fn wf(&self) -> bool {
        view_wf(self@)
    }

    /// A shell with no surfaces.
    pub fn init_shell() -> (r: ShellManager)
        ensures
            r@.pending.len() == 0,
            r@.windows.len() == 0,
            r@.layers.len() == 0,
            r@.popups.len() == 0,
            r@.slots.len() == 0,
            r.wf(),
    {
        ShellManager {
            not_mapped_list: PendingRegistry::new(),
            windows: Registry::new(),
            layers: Registry::new(),
            popups: Registry::new(),
            slots: Registry::new(),
        }
    }

    /// Gives a slot to every surface of `ids` that has none.
    fn ensure_slots(&mut self, ids: &Vec<u64>)
        requires
            old(self).wf(),
        ensures
            final(self)@ == (ShellView { slots: ensure_slots(old(self)@.slots, ids@), ..old(self)@ }),
            final(self).wf(),
    {
        let mut k: usize = 0;
        while k < ids.len()
            invariant
                0 <= k <= ids@.len(),
                self@ == (ShellView {
                    slots: ensure_slots(old(self)@.slots, ids@.take(k as int)),
                    ..old(self)@
                }),
                self.wf(),
            decreases ids@.len() - k,
        {
            proof {
                assert(ids@.take(k as int + 1).drop_last() =~= ids@.take(k as int));
            }
            let id = ids[k];
            if self.slots.position(id).is_none() {
                self.slots.push(SurfaceSlot { surface: id, data: SurfaceData::new() });
            }
            k = k + 1;
        }
        proof {
            assert(ids@.take(ids@.len() as int) =~= ids@);
        }
    }

    /// The auxiliary state of surface `s`.
    fn data_of(&self, s: u64) -> (r: SurfaceData)
        requires
            self.wf(),
        ensures
            r == slot_data(self@.slots, s),
    {
        match self.slots.find(s) {
            Some(slot) => slot.data,
            None => SurfaceData::new(),
        }
    }

    /// Sets the auxiliary state of surface `s`, giving it a slot if needed.
    fn set_data(&mut self, s: u64, d: SurfaceData)
        requires
            old(self).wf(),
        ensures
            final(self)@ == (ShellView { slots: with_slot(old(self)@.slots, s, d), ..old(self)@ }),
            final(self).wf(),
    {
        match self.slots.position(s) {
            Some(i) => self.slots.set(i, SurfaceSlot { surface: s, data: d }),
            None => self.slots.push(SurfaceSlot { surface: s, data: d }),
        }
    }

    /// The resize/move step of a commit of `s`.
    fn try_update_mapped(&mut self, s: u64, geometry: Option<Rect>) -> (r: Option<ShellEvent>)
        requires
            old(self).wf(),
        ensures
            final(self)@ == (ShellView {
                slots: resize_step(old(self)@.windows, old(self)@.slots, s, geometry).0,
                ..old(self)@
            }),
            match r {
                Some(e) => resize_step(old(self)@.windows, old(self)@.slots, s, geometry).1
                    == seq![ShellAction::Notify(e)],
                None => resize_step(old(self)@.windows, old(self)@.slots, s, geometry).1.len()
                    == 0,
            },
            final(self).wf(),
    {
        let window = match self.windows.find(s) {
            Some(w) => *w,
            None => return None,
        };
        let g = match geometry {
            Some(g) => g,
            None => return None,
        };
        if self.slots.position(s).is_none() {
            return None;
        }
        let mut d = self.data_of(s);
        let (x, y) = d.on_commit(g.size);
        self.set_data(s, d);
        proof {
            assert(x == opt_i64(slot_data(old(self)@.slots, s).commit_location(g.size).0));
            assert(y == opt_i64(slot_data(old(self)@.slots, s).commit_location(g.size).1));
        }
        if x.is_some() || y.is_some() {
            Some(ShellEvent::WindowGotResized { window, new_location_x: x, new_location_y: y })
        } else {
            None
        }
    }

    /// The promotion step of a commit of `s`: a pending surface with a known
    /// geometry becomes a mapped window.
    fn try_map_unmaped(&mut self, s: u64, geometry: Option<Rect>) -> (r: Option<Window>)
        requires
            old(self).wf(),
        ensures
            (final(self)@.pending, r) == promote(old(self)@.pending, s, geometry),
            final(self)@ == (ShellView {
                pending: final(self)@.pending,
                windows: match r {
                    Some(w) => old(self)@.windows.push(w),
                    None => old(self)@.windows,
                },
                ..old(self)@
            }),
            final(self).wf(),
    {
        let ghost v = self@;
        match self.not_mapped_list.try_promote(s, geometry) {
            None => None,
            Some(w) => {
                proof {
                    assert(v.pending.contains(s));
                    assert(!has_surface(v.windows, s));
                }
                self.windows.push(w);
                proof {
                    let n = self@;
                    assert forall|t: u64| n.pending.contains(t) implies v.pending.contains(t) && t
                        != s by {
                        let k = choose|k: int| 0 <= k < n.pending.len() && n.pending[k] == t;
                        let i = v.pending.index_of(s);
                        if k < i {
                            assert(v.pending[k] == t);
                        } else {
                            assert(v.pending[k + 1] == t);
                        }
                    }
                    assert forall|t: u64| has_surface(n.windows, t) implies has_surface(v.windows, t)
                        || t == s by {
                        let k = choose|k: int| 0 <= k < n.windows.len() && n.windows[k].surface_id() == t;
                        if k < v.windows.len() {
                            assert(v.windows[k] == n.windows[k]);
                        }
                    }
                    assert(roles_disjoint(n));
                }
                Some(w)
            },
        }
    }

    /// Handles a buffer commit of a surface, after the buffer was imported and
    /// the popup tracker was told. Returns what must happen, in order.
    pub fn surface_commit(&mut self, c: &Commit) -> (r: Vec<ShellAction>)
        requires
            old(self).wf(),
        ensures
            (final(self)@, r@) == commit_outcome(old(self)@, *c),
            final(self).wf(),
    {
        let ghost v0 = self@;
        if !c.sync_subsurface {
            self.ensure_slots(&c.subtree);
        }
        let mut out: Vec<ShellAction> = Vec::new();
        let ghost v1 = self@;
        if let Some(w) = self.try_map_unmaped(c.surface, c.geometry) {
            out.push(ShellAction::Notify(ShellEvent::WindowCreated { window: w }));
        }
        let ghost v2 = self@;
        let ghost out2 = out@;
        proof {
            lemma_configure_step_keeps_surfaces(v2.popups, c.surface);
        }
        if self.popups.configure_once(c.surface) {
            out.push(ShellAction::SendConfigure(c.surface));
        }
        proof {
            assert(roles_disjoint(self@));
        }
        let ghost v3 = self@;
        let ghost out3 = out@;
        if let Some(e) = self.try_update_mapped(c.surface, c.geometry) {
            out.push(ShellAction::Notify(e));
        }
        let ghost v4 = self@;
        let ghost out4 = out@;
        proof {
            lemma_configure_step_keeps_surfaces(v4.layers, c.surface);
        }
        if self.layers.configure_once(c.surface) {
            out.push(ShellAction::SendConfigure(c.surface));
        }
        proof {
            assert(roles_disjoint(self@));
        }
        let ghost out5 = out@;
        out.push(ShellAction::Notify(ShellEvent::SurfaceCommit { surface: c.surface }));
        proof {
            let (nv, acts) = commit_outcome(v0, *c);
            assert(self@ == nv);
            assert(out@ =~= acts);
        }
        out
    }

    /// Whether surface `s` has a shell role already.
    fn has_role(&self, s: u64) -> (r: bool)
        requires
            self.wf(),
        ensures
            r == has_role(self@, s),
    {
        self.not_mapped_list.contains(s) || self.windows.position(s).is_some()
            || self.layers.position(s).is_some() || self.popups.position(s).is_some()
    }

    /// Handles a layer-shell request. An acknowledged serial is passed on as
    /// it came; checking it against the configures sent is the handler's part.
    pub fn wlr_layer_shell_request(&mut self, request: LayerShellRequest) -> (r: Option<ShellEvent>)
        requires
            old(self).wf(),
        ensures
            (final(self)@, r) == layer_outcome(old(self)@, request),
            final(self).wf(),
    {
        match request {
            LayerShellRequest::NewLayerSurface { surface, output, layer, namespace } => {
                if self.has_role(surface) {
                    None
                } else {
                    let ghost v = self@;
                    let entry = LayerEntry {
                        surface,
                        output,
                        layer,
                        namespace: namespace.clone(),
                        initial_configure_sent: false,
                    };
                    self.layers.push(entry);
                    proof {
                        assert forall|t: u64| has_surface(self@.layers, t) implies has_surface(
                            v.layers,
                            t,
                        ) || t == surface by {
                            let k = choose|k: int|
                                0 <= k < self@.layers.len() && self@.layers[k].surface_id() == t;
                            if k < v.layers.len() {
                                assert(v.layers[k] == self@.layers[k]);
                            }
                        }
                        assert(roles_disjoint(self@));
                    }
                    Some(ShellEvent::LayerCreated { surface, output, layer, namespace })
                }
            },
            LayerShellRequest::AckConfigure { surface, serial } => {
                Some(ShellEvent::LayerAckConfigure { surface, serial })
            },
        }
    }

    /// Handles an xdg-shell request.
    pub fn xdg_shell_request(&mut self, request: XdgRequest) -> (r: Option<ShellEvent>)
        requires
            old(self).wf(),
        ensures
            (final(self)@, r) == xdg_outcome(old(self)@, request),
            final(self).wf(),
    {
        let ghost v = self@;
        match request {
            XdgRequest::NewToplevel { surface } => {
                if !self.has_role(surface) {
                    self.not_mapped_list.insert(surface);
                    proof {
                        assert forall|t: u64| self@.pending.contains(t) implies v.pending.contains(t)
                            || t == surface by {
                            let k = choose|k: int|
                                0 <= k < self@.pending.len() && self@.pending[k] == t;
                            if k < v.pending.len() {
                                assert(v.pending[k] == t);
                            }
                        }
                        assert(roles_disjoint(self@));
                    }
                }
                None
            },
            XdgRequest::NewPopup { surface, parent, geometry } => {
                if self.has_role(surface) {
                    None
                } else {
                    let popup = PopupEntry { surface, parent, geometry, initial_configure_sent: false };
                    self.popups.push(popup);
                    proof {
                        assert forall|t: u64| has_surface(self@.popups, t) implies has_surface(
                            v.popups,
                            t,
                        ) || t == surface by {
                            let k = choose|k: int|
                                0 <= k < self@.popups.len() && self@.popups[k].surface_id() == t;
                            if k < v.popups.len() {
                                assert(v.popups[k] == self@.popups[k]);
                            }
                        }
                        assert(roles_disjoint(self@));
                    }
                    Some(ShellEvent::PopupCreated { popup })
                }
            },
            XdgRequest::Grab { surface, serial } => match self.popups.find(surface) {
                Some(p) => Some(ShellEvent::PopupGrab { popup: *p, serial }),
                None => None,
            },
            XdgRequest::AckConfigure { surface, serial } => {
                if self.slots.position(surface).is_some() {
                    let mut d = self.data_of(surface);
                    d.ack_configure(serial);
                    self.set_data(surface, d);
                }
                None
            },
            XdgRequest::Move { surface, serial } => match self.windows.find(surface) {
                Some(w) => Some(ShellEvent::WindowMove { window: *w, serial }),
                None => None,
            },
            XdgRequest::Resize { surface, edges, serial } => match self.windows.find(surface) {
                Some(w) => Some(ShellEvent::WindowResize { window: *w, edges, serial }),
                None => None,
            },
            XdgRequest::Maximize { surface } => match self.windows.find(surface) {
                Some(w) => Some(ShellEvent::WindowMaximize { window: *w }),
                None => None,
            },
            XdgRequest::UnMaximize { surface } => match self.windows.find(surface) {
                Some(w) => Some(ShellEvent::WindowUnMaximize { window: *w }),
                None => None,
            },
            XdgRequest::Fullscreen { surface, output } => match self.windows.find(surface) {
                Some(w) => Some(ShellEvent::WindowFullscreen { window: *w, output }),
                None => None,
            },
            XdgRequest::UnFullscreen { surface } => match self.windows.find(surface) {
                Some(w) => Some(ShellEvent::WindowUnFullscreen { window: *w }),
                None => None,
            },
            XdgRequest::Minimize { surface } => match self.windows.find(surface) {
                Some(w) => Some(ShellEvent::WindowMinimize { window: *w }),
                None => None,
            },
            XdgRequest::ShowWindowMenu { surface, serial, location } => match self.windows.find(
                surface,
            ) {
                Some(w) => Some(ShellEvent::ShowWindowMenu { window: *w, serial, location }),
                None => None,
            },
        }
    }

    /// The handler starts an interactive resize of surface `s`.
    pub fn start_resize(&mut self, s: u64, edges: ResizeEdge, location: Point, size: Size)
        requires
            old(self).wf(),
        ensures
            final(self)@ == (ShellView {
                slots: with_slot(
                    old(self)@.slots,
                    s,
                    slot_data(old(self)@.slots, s).resize_started(edges, location, size),
                ),
                ..old(self)@
            }),
            final(self).wf(),
    {
        let mut d = self.data_of(s);
        d.start_resize(edges, location, size);
        self.set_data(s, d);
    }

    /// The resize grab of surface `s` ended; its final configure carries `serial`.
    pub fn resize_released(&mut self, s: u64, serial: u32)
        requires
            old(self).wf(),
        ensures
            final(self)@ == (ShellView {
                slots: with_slot(old(self)@.slots, s, slot_data(old(self)@.slots, s).released(serial)),
                ..old(self)@
            }),
            final(self).wf(),
    {
        let mut d = self.data_of(s);
        d.resize_released(serial);
        self.set_data(s, d);
    }

    /// Queues a location for surface `s` to take on the commit that finishes its resize.
    pub fn queue_move_after_resize(&mut self, s: u64, target: Point)
        requires
            old(self).wf(),
        ensures
            final(self)@ == (ShellView {
                slots: with_slot(old(self)@.slots, s, slot_data(old(self)@.slots, s).move_queued(target)),
                ..old(self)@
            }),
            final(self).wf(),
    {
        let mut d = self.data_of(s);
        d.queue_move_after_resize(target);
        self.set_data(s, d);
    }

    /// Forgets every surface listed in `dead`: its role, its registry entry
    /// and its auxiliary state. The survivors keep their order.
    pub fn refresh(&mut self, dead: &Vec<u64>)
        requires
            old(self).wf(),
        ensures
            final(self)@ == refreshed(old(self)@, dead@),
            final(self).wf(),
    {
        let ghost v = self@;
        self.windows.refresh(dead);
        self.layers.refresh(dead);
        self.popups.refresh(dead);
        self.slots.refresh(dead);
        self.not_mapped_list.refresh(dead);
        proof {
            let n = self@;
            assert forall|t: u64|
                {
                    &&& (n.pending.contains(t) ==> !has_surface(n.windows, t) && !has_surface(
                        n.layers,
                        t,
                    ) && !has_surface(n.popups, t))
                    &&& (has_surface(n.windows, t) ==> !has_surface(n.layers, t) && !has_surface(
                        n.popups,
                        t,
                    ))
                    &&& (has_surface(n.layers, t) ==> !has_surface(n.popups, t))
                } by {
                lemma_filter_contains(v.pending, survives(dead@), t);
                lemma_filter_has_surface(v.windows, entry_survives::<Window>(dead@), t);
                lemma_filter_has_surface(v.layers, entry_survives::<LayerEntry>(dead@), t);
                lemma_filter_has_surface(v.popups, entry_survives::<PopupEntry>(dead@), t);
            }
            assert(roles_disjoint(self@));
        }
    }

    /// Whether surface `s` waits for its first buffer.
    pub fn is_pending(&self, s: u64) -> (r: bool)
        ensures
            r == self@.pending.contains(s),
    {
        self.not_mapped_list.contains(s)
    }

    /// The mapped window of surface `s`.
    pub fn window(&self, s: u64) -> (r: Option<Window>)
        requires
            self.wf(),
        ensures
            r == window_of(self@, s),
    {
        match self.windows.find(s) {
            Some(w) => Some(*w),
            None => None,
        }
    }

    /// The auxiliary state of surface `s`.
    pub fn surface_data(&self, s: u64) -> (r: SurfaceData)
        requires
            self.wf(),
        ensures
            r == slot_data(self@.slots, s),
    {
        self.data_of(s)
    }
}

} // verus!
