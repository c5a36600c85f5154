use vstd::prelude::*;

use crate::edge::ResizeEdge;
use crate::geometry::{Point, Size};

verus! {

/// What a resize started from.
#[derive(Clone, Copy, Debug, PartialEq, Eq, Structural)]
pub struct ResizeData {
    pub edges: ResizeEdge,
    pub initial_window_location: Point,
    pub initial_window_size: Size,
}

/// Where an interactive resize of a surface stands.
#[derive(Clone, Copy, Debug, PartialEq, Eq, Structural)]
pub enum ResizeState {
    NotResizing,
    Resizing(ResizeData),
    /// The grab ended; the final configure carries this serial.
    WaitingForFinalAck(ResizeData, u32),
    /// The final configure was acked; the next commit completes the resize.
    WaitingForCommit(ResizeData),
}

/// A reposition the compositor asked to apply together with the commit that
/// completes a resize.
#[derive(Clone, Copy, Debug, PartialEq, Eq, Structural)]
pub enum MoveAfterResizeState {
    Idle,
    WaitingForCommit(Point),
    Current(Point),
}

/// Auxiliary state attached to every surface.
#[derive(Clone, Copy, Debug, PartialEq, Eq, Structural)]
pub struct SurfaceData {
    pub resize_state: ResizeState,
    pub move_after_resize_state: MoveAfterResizeState,
}

/// The integer value of an optional coordinate.
pub open spec fn opt_int(o: Option<i64>) -> Option<int> {
    match o {
        Some(v) => Some(v as int),
        None => None,
    }
}

impl ResizeState {
    /// The resize data, while a resize is in progress in any phase.
    pub open spec fn active(self) -> Option<ResizeData> {
        match self {
            ResizeState::NotResizing => None,
            ResizeState::Resizing(d) => Some(d),
            ResizeState::WaitingForFinalAck(d, _) => Some(d),
            ResizeState::WaitingForCommit(d) => Some(d),
        }
    }

    /// The location adjustment a commit at `size` implies: a left edge keeps
    /// the right edge fixed, a top edge keeps the bottom edge fixed.
    pub open spec fn adjustment(self, size: Size) -> (Option<int>, Option<int>) {
        match self.active() {
            None => (None, None),
            Some(d) => (
                if d.edges.spec_has_left() {
                    Some(d.initial_window_location.x + (d.initial_window_size.w - size.w))
                } else {
                    None
                },
                if d.edges.spec_has_top() {
                    Some(d.initial_window_location.y + (d.initial_window_size.h - size.h))
                } else {
                    None
                },
            ),
        }
    }

    /// The state after a commit: a resize waiting for its commit is complete.
    pub open spec fn after_commit(self) -> ResizeState {
        match self {
            ResizeState::WaitingForCommit(_) => ResizeState::NotResizing,
            _ => self,
        }
    }
}

impl MoveAfterResizeState {
    /// The state after a commit: a queued target becomes current.
    pub open spec fn after_commit(self) -> MoveAfterResizeState {
        match self {
            MoveAfterResizeState::WaitingForCommit(p) => MoveAfterResizeState::Current(p),
            _ => self,
        }
    }
}

impl SurfaceData {
    /// The new location a commit at `size` reports, per axis; `None` leaves
    /// that axis unchanged. A queued move target wins over the resize rule.
    pub open spec fn commit_location(self, size: Size) -> (Option<int>, Option<int>) {
        match self.move_after_resize_state {
            MoveAfterResizeState::WaitingForCommit(p) => (Some(p.x as int), Some(p.y as int)),
            _ => self.resize_state.adjustment(size),
        }
    }

    pub open spec fn after_commit(self) -> SurfaceData {
        SurfaceData {
            resize_state: self.resize_state.after_commit(),
            move_after_resize_state: self.move_after_resize_state.after_commit(),
        }
    }

    pub open spec fn resize_started(self, edges: ResizeEdge, location: Point, size: Size) -> SurfaceData {
        SurfaceData {
            resize_state: ResizeState::Resizing(
                ResizeData { edges, initial_window_location: location, initial_window_size: size },
            ),
            ..self
        }
    }

    pub open spec fn released(self, serial: u32) -> SurfaceData {
        SurfaceData {
            resize_state: match self.resize_state {
                ResizeState::Resizing(d) => ResizeState::WaitingForFinalAck(d, serial),
                s => s,
            },
            ..self
        }
    }

    pub open spec fn acked(self, serial: u32) -> SurfaceData {
        SurfaceData {
            resize_state: match self.resize_state {
                ResizeState::WaitingForFinalAck(d, s) => if s == serial {
                    ResizeState::WaitingForCommit(d)
                } else {
                    self.resize_state
                },
                s => s,
            },
            ..self
        }
    }

    pub open spec fn move_queued(self, target: Point) -> SurfaceData {
        SurfaceData {
            move_after_resize_state: MoveAfterResizeState::WaitingForCommit(target),
            ..self
        }
    }

    pub fn new() -> (r: SurfaceData)
        ensures
            r.resize_state is NotResizing,
            r.move_after_resize_state is Idle,
    {
        SurfaceData {
            resize_state: ResizeState::NotResizing,
            move_after_resize_state: MoveAfterResizeState::Idle,
        }
    }

    /// An interactive resize begins.
    pub fn start_resize(&mut self, edges: ResizeEdge, location: Point, size: Size)
        ensures
            *final(self) == old(self).resize_started(edges, location, size),
    {
        self.resize_state = ResizeState::Resizing(
            ResizeData { edges, initial_window_location: location, initial_window_size: size },
        );
    }

    /// The resize grab ended and the final configure went out with `serial`.
    /// Does nothing unless a resize is in its `Resizing` phase.
    pub fn resize_released(&mut self, serial: u32)
        ensures
            *final(self) == old(self).released(serial),
    {
        if let ResizeState::Resizing(d) = self.resize_state {
            self.resize_state = ResizeState::WaitingForFinalAck(d, serial);
        }
    }

    /// The client acked configure `serial`. If it is the final configure of
    /// the resize, the resize waits for the next commit.
    pub fn ack_configure(&mut self, serial: u32)
        ensures
            *final(self) == old(self).acked(serial),
    {
        if let ResizeState::WaitingForFinalAck(d, s) = self.resize_state {
            if s == serial {
                self.resize_state = ResizeState::WaitingForCommit(d);
            }
        }
    }

    /// Queues a location to take on the commit that finishes the resize.
    pub fn queue_move_after_resize(&mut self, target: Point)
        ensures
            *final(self) == old(self).move_queued(target),
    {
        self.move_after_resize_state = MoveAfterResizeState::WaitingForCommit(target);
    }

    /// A commit of the surface whose window now has `size`: returns the new
    /// location per axis (`None`: unchanged) and advances both state machines.
    pub fn on_commit(&mut self, size: Size) -> (r: (Option<i64>, Option<i64>))
        ensures
            opt_int(r.0) == old(self).commit_location(size).0,
            opt_int(r.1) == old(self).commit_location(size).1,
            *final(self) == old(self).after_commit(),
    {
        let mut new_x: Option<i64> = None;
        let mut new_y: Option<i64> = None;
        match self.resize_state {
            ResizeState::Resizing(d)
            | ResizeState::WaitingForFinalAck(d, _)
            | ResizeState::WaitingForCommit(d) => {
                if d.edges.has_left() {
                    new_x = Some(
                        d.initial_window_location.x as i64 + (d.initial_window_size.w as i64
                            - size.w as i64),
                    );
                }
                if d.edges.has_top() {
                    new_y = Some(
                        d.initial_window_location.y as i64 + (d.initial_window_size.h as i64
                            - size.h as i64),
                    );
                }
            },
            ResizeState::NotResizing => {},
        }
        if let ResizeState::WaitingForCommit(_) = self.resize_state {
            self.resize_state = ResizeState::NotResizing;
        }
        if let MoveAfterResizeState::WaitingForCommit(p) = self.move_after_resize_state {
            new_x = Some(p.x as i64);
            new_y = Some(p.y as i64);
            self.move_after_resize_state = MoveAfterResizeState::Current(p);
        }
        (new_x, new_y)
    }
}

/// Once a resize has completed on a commit, a further commit reports no
/// location change, whatever the window's size.
pub proof fn lemma_completed_resize_reports_nothing(d: SurfaceData, size: Size, next_size: Size)
    requires
        d.resize_state is WaitingForCommit,
    ensures
        d.after_commit().resize_state is NotResizing,
        d.after_commit().commit_location(next_size) == (None::<int>, None::<int>),
{
}

/// A queued move target is applied on exactly the next commit, while the
/// resize still takes its own step on that commit; the move state becomes
/// `Current`, and a later commit with no new target moves nothing beyond
/// what the resize rule alone gives.
pub proof fn lemma_move_after_resize_applied_once(
    d: SurfaceData,
    target: Point,
    size: Size,
    next_size: Size,
)
    requires
        d.move_after_resize_state == MoveAfterResizeState::WaitingForCommit(target),
    ensures
        d.commit_location(size) == (Some(target.x as int), Some(target.y as int)),
        d.after_commit().resize_state == d.resize_state.after_commit(),
        d.after_commit().move_after_resize_state == MoveAfterResizeState::Current(target),
        d.after_commit().commit_location(next_size) == d.after_commit().resize_state.adjustment(
            next_size,
        ),
        d.after_commit().resize_state.active() is None ==> d.after_commit().commit_location(
            next_size,
        ) == (None::<int>, None::<int>),
{
}

} // verus!
