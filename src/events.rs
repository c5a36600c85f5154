use vstd::prelude::*;

use crate::edge::ResizeEdge;
use crate::geometry::{Point, Rect};
use crate::registry::{Layer, PopupEntry, Window};

verus! {

/// A notification to the embedding handler.
#[derive(Clone, Debug, PartialEq, Eq)]
pub enum ShellEvent {
    WindowCreated { window: Window },
    WindowMove { window: Window, serial: u32 },
    WindowResize { window: Window, edges: ResizeEdge, serial: u32 },
    /// A commit moved the window; `None` leaves that axis as it was.
    WindowGotResized { window: Window, new_location_x: Option<i64>, new_location_y: Option<i64> },
    WindowMaximize { window: Window },
    WindowUnMaximize { window: Window },
    WindowFullscreen { window: Window, output: Option<u64> },
    WindowUnFullscreen { window: Window },
    WindowMinimize { window: Window },
    PopupCreated { popup: PopupEntry },
    PopupGrab { popup: PopupEntry, serial: u32 },
    ShowWindowMenu { window: Window, serial: u32, location: Point },
    SurfaceCommit { surface: u64 },
    LayerCreated { surface: u64, output: Option<u64>, layer: Layer, namespace: String },
    LayerAckConfigure { surface: u64, serial: u32 },
}

/// What a commit asks of the outside world, in order.
#[derive(Clone, Debug, PartialEq, Eq)]
pub enum ShellAction {
    /// Report this event to the handler.
    Notify(ShellEvent),
    /// Send the initial configure to this surface.
    SendConfigure(u64),
}

/// A request of the layer-shell protocol.
#[derive(Clone, Debug, PartialEq, Eq)]
pub enum LayerShellRequest {
    NewLayerSurface { surface: u64, output: Option<u64>, layer: Layer, namespace: String },
    AckConfigure { surface: u64, serial: u32 },
}

/// A request of the xdg-shell protocol.
#[derive(Clone, Copy, Debug, PartialEq, Eq)]
pub enum XdgRequest {
    NewToplevel { surface: u64 },
    NewPopup { surface: u64, parent: u64, geometry: Rect },
    Move { surface: u64, serial: u32 },
    Resize { surface: u64, edges: ResizeEdge, serial: u32 },
    Grab { surface: u64, serial: u32 },
    Maximize { surface: u64 },
    UnMaximize { surface: u64 },
    Fullscreen { surface: u64, output: Option<u64> },
    UnFullscreen { surface: u64 },
    Minimize { surface: u64 },
    ShowWindowMenu { surface: u64, serial: u32, location: Point },
    AckConfigure { surface: u64, serial: u32 },
}

/// A buffer commit of a surface, with what the protocol layer knows of it.
#[derive(Clone, Debug, PartialEq, Eq)]
pub struct Commit {
    pub surface: u64,
    /// The surface is a synchronized subsurface.
    pub sync_subsurface: bool,
    /// The surface and every surface below it in its subsurface tree.
    pub subtree: Vec<u64>,
    /// The window geometry, once a buffer is attached and the geometry resolves.
    pub geometry: Option<Rect>,
}

} // verus!
