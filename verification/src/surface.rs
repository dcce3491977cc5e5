//! Keeps the two presentation surfaces glued together.
//!
//! The primary surface is the control window; the secondary one is the
//! content viewer that lives immediately to its right.  The controller
//! owns the model of both geometries and reacts to lifecycle signals
//! (show, close request, focus, move) by mutating the model and handing
//! the boundary layer an ordered list of commands to apply.  Corrective
//! moves are applied to the model directly, never by re-entering the
//! public move handlers, so the two surfaces cannot feed back into each
//! other and oscillate.

use vstd::prelude::*;

verus! {

/// Width given to the secondary surface whenever it is (re)shown.
pub const SECONDARY_WIDTH: i64 = 1600;

/// Positions reported by the host windowing system fit in 32 bits.
pub const INPUT_BOUND: i64 = 2147483648;

/// Range the model keeps the primary surface's position inside: a host
/// position, possibly shifted left by one surface width.
pub const PRIMARY_BOUND: i64 = 4294967296;

/// Range the model keeps the secondary surface's position inside: the
/// primary's position shifted right by one surface width.  Staying in
/// this range keeps every position computation free of 64-bit overflow.
pub const POS_BOUND: i64 = 8589934592;

/// Largest width or height the model accepts.
pub const SIZE_BOUND: i64 = 2147483648;

/// Position and size of one surface, in physical pixels.
#[derive(Clone, Copy, Debug, PartialEq, Eq, Structural)]
pub struct SurfaceGeom {
    pub x: i64,
    pub y: i64,
    pub width: i64,
    pub height: i64,
}

/// Which of the two surfaces a signal or a command concerns.
#[derive(Clone, Copy, Debug, PartialEq, Eq, Structural)]
pub enum SurfaceId {
    Primary,
    Secondary,
}

/// One instruction for the boundary layer, to be applied in list order.
#[derive(Debug, PartialEq, Eq, Structural)]
pub enum SurfaceCommand {
    /// Build the secondary surface for the first time (hidden, undecorated).
    CreateSecondary,
    /// Move a surface to the given position.
    SetPosition(SurfaceId, i64, i64),
    /// Resize a surface.
    SetSize(SurfaceId, i64, i64),
    /// Make the secondary surface visible.
    ShowSecondary,
    /// Hide the secondary surface instead of destroying it.
    HideSecondary,
    /// Veto the pending native close of the secondary surface.
    VetoClose,
    /// Tell listeners that the viewer was dismissed.
    EmitClosed,
    /// Toggle the transient always-on-top flag of a surface.
    SetAlwaysOnTop(SurfaceId, bool),
    /// Restore a surface from a minimized state.
    Unminimize(SurfaceId),
}

/// The surface pair: both geometries, whether the viewer is currently
/// shown, and whether it has ever been built (it is reused, never
/// destroyed, after its first creation).
#[derive(Clone, Copy, Debug, PartialEq, Eq, Structural)]
pub struct SurfaceSyncController {
    pub primary: SurfaceGeom,
    pub secondary: SurfaceGeom,
    pub secondary_visible: bool,
    pub secondary_created: bool,
}

/// Geometry the model can hold without risking overflow.
pub open spec fn geom_bounded(g: SurfaceGeom) -> bool {
    &&& -POS_BOUND <= g.x <= POS_BOUND
    &&& -POS_BOUND <= g.y <= POS_BOUND
    &&& 0 <= g.width <= SIZE_BOUND
    &&& 0 <= g.height <= SIZE_BOUND
}

/// The tighter range the primary surface's model position stays in.
pub open spec fn primary_bounded(g: SurfaceGeom) -> bool {
    &&& -PRIMARY_BOUND <= g.x <= PRIMARY_BOUND
    &&& -PRIMARY_BOUND <= g.y <= PRIMARY_BOUND
    &&& 0 <= g.width <= SIZE_BOUND
    &&& 0 <= g.height <= SIZE_BOUND
}

/// A position as the host windowing system reports it.
pub open spec fn input_pos(x: i64, y: i64) -> bool {
    &&& -INPUT_BOUND <= x <= INPUT_BOUND
    &&& -INPUT_BOUND <= y <= INPUT_BOUND
}

/// The controller invariant: geometries are bounded and, while the
/// viewer is visible, it sits exactly at the primary's right edge, top
/// aligned.
pub open spec fn controller_wf(c: SurfaceSyncController) -> bool {
    &&& primary_bounded(c.primary)
    &&& geom_bounded(c.secondary)
    &&& c.secondary_visible ==> c.secondary.x == c.primary.x + c.primary.width
        && c.secondary.y == c.primary.y
}

/// State after showing the viewer: it is placed immediately to the right
/// of the primary surface, top aligned, with the primary's height.
pub open spec fn spec_show(c: SurfaceSyncController) -> SurfaceSyncController {
    SurfaceSyncController {
        secondary: SurfaceGeom {
            x: (c.primary.x + c.primary.width) as i64,
            y: c.primary.y,
            width: SECONDARY_WIDTH,
            height: c.primary.height,
        },
        secondary_visible: true,
        secondary_created: true,
        ..c
    }
}

/// State after a vetoed close: the viewer is hidden, nothing else moves.
pub open spec fn spec_close_request(c: SurfaceSyncController) -> SurfaceSyncController {
    SurfaceSyncController { secondary_visible: false, ..c }
}

/// State after the primary surface moved to `(x, y)`: the model follows
/// it, and while the viewer is visible it is dragged along to keep the
/// pair glued.
pub open spec fn spec_move_primary(c: SurfaceSyncController, x: i64, y: i64) -> SurfaceSyncController {
    let moved = SurfaceSyncController {
        primary: SurfaceGeom { x, y, ..c.primary },
        ..c
    };
    if c.secondary_visible {
        SurfaceSyncController {
            secondary: SurfaceGeom {
                x: (x + c.primary.width) as i64,
                y,
                ..c.secondary
            },
            ..moved
        }
    } else {
        moved
    }
}

/// State after the secondary surface moved to `(x, y)`: the primary is
/// placed so that its right edge touches the viewer's left edge.
pub open spec fn spec_move_secondary(c: SurfaceSyncController, x: i64, y: i64) -> SurfaceSyncController {
    SurfaceSyncController {
        primary: SurfaceGeom { x: (x - c.primary.width) as i64, y, ..c.primary },
        secondary: SurfaceGeom { x, y, ..c.secondary },
        ..c
    }
}

impl SurfaceSyncController {
    /// A controller for a primary surface at the given geometry; the
    /// viewer starts hidden and not yet built.
    pub fn new(primary: SurfaceGeom) -> (r: Self)
        requires
            primary_bounded(primary),
        ensures
            r == (SurfaceSyncController {
                primary,
                secondary: SurfaceGeom { x: 0, y: 0, width: 0, height: 0 },
                secondary_visible: false,
                secondary_created: false,
            }),
            controller_wf(r),
    {
        SurfaceSyncController {
            primary,
            secondary: SurfaceGeom { x: 0, y: 0, width: 0, height: 0 },
            secondary_visible: false,
            secondary_created: false,
        }
    }

    /// Content is ready: build the viewer if this is its first use, then
    /// position, size and reveal it.
    pub fn show(&mut self) -> (cmds: Vec<SurfaceCommand>)
        requires
            controller_wf(*old(self)),
        ensures
            *final(self) == spec_show(*old(self)),
            controller_wf(*final(self)),
            cmds@ == spec_show_commands(*old(self)),
    {
        let mut cmds: Vec<SurfaceCommand> = Vec::new();
        if !self.secondary_created {
            cmds.push(SurfaceCommand::CreateSecondary);
        }
        let x = self.primary.x + self.primary.width;
        let y = self.primary.y;
        let h = self.primary.height;
        cmds.push(SurfaceCommand::SetPosition(SurfaceId::Secondary, x, y));
        cmds.push(SurfaceCommand::SetSize(SurfaceId::Secondary, SECONDARY_WIDTH, h));
        cmds.push(SurfaceCommand::ShowSecondary);
        self.secondary = SurfaceGeom { x, y, width: SECONDARY_WIDTH, height: h };
        self.secondary_visible = true;
        self.secondary_created = true;
        proof {
            assert(cmds@ =~= spec_show_commands(*old(self)));
        }
        cmds
    }

    /// The viewer's native close was requested: veto it, hide the viewer
    /// for reuse, and tell listeners it was dismissed.
    pub fn handle_close_requested(&mut self) -> (cmds: Vec<SurfaceCommand>)
        requires
            controller_wf(*old(self)),
        ensures
            *final(self) == spec_close_request(*old(self)),
            controller_wf(*final(self)),
            cmds@ == seq![
                SurfaceCommand::EmitClosed,
                SurfaceCommand::HideSecondary,
                SurfaceCommand::VetoClose,
            ],
    {
        self.secondary_visible = false;
        let mut cmds: Vec<SurfaceCommand> = Vec::new();
        cmds.push(SurfaceCommand::EmitClosed);
        cmds.push(SurfaceCommand::HideSecondary);
        cmds.push(SurfaceCommand::VetoClose);
        proof {
            assert(cmds@ =~= seq![
                SurfaceCommand::EmitClosed,
                SurfaceCommand::HideSecondary,
                SurfaceCommand::VetoClose,
            ]);
        }
        cmds
    }

    /// A surface gained focus: raise the pair to the foreground with a
    /// transient always-on-top toggle on both, and un-minimize the
    /// companion.  Merely focusing one window does not reliably bring the
    /// other, independently owned one forward, hence the two-step toggle.
    pub fn handle_focused(&mut self, which: SurfaceId) -> (cmds: Vec<SurfaceCommand>)
        requires
            controller_wf(*old(self)),
        ensures
            *final(self) == *old(self),
            cmds@ == spec_focus_commands(*old(self), which),
    {
        let mut cmds: Vec<SurfaceCommand> = Vec::new();
        match which {
            SurfaceId::Primary => {
                if self.secondary_visible {
                    cmds.push(SurfaceCommand::SetAlwaysOnTop(SurfaceId::Primary, true));
                    cmds.push(SurfaceCommand::SetAlwaysOnTop(SurfaceId::Secondary, true));
                    cmds.push(SurfaceCommand::Unminimize(SurfaceId::Secondary));
                    cmds.push(SurfaceCommand::SetAlwaysOnTop(SurfaceId::Primary, false));
                    cmds.push(SurfaceCommand::SetAlwaysOnTop(SurfaceId::Secondary, false));
                }
            },
            SurfaceId::Secondary => {
                cmds.push(SurfaceCommand::SetAlwaysOnTop(SurfaceId::Secondary, true));
                cmds.push(SurfaceCommand::SetAlwaysOnTop(SurfaceId::Primary, true));
                cmds.push(SurfaceCommand::Unminimize(SurfaceId::Primary));
                cmds.push(SurfaceCommand::SetAlwaysOnTop(SurfaceId::Secondary, false));
                cmds.push(SurfaceCommand::SetAlwaysOnTop(SurfaceId::Primary, false));
            },
        }
        proof {
            assert(cmds@ =~= spec_focus_commands(*old(self), which));
        }
        cmds
    }

    /// The host moved a surface: record it and issue the one corrective
    /// move that keeps the pair glued.  The correction is a direct
    /// geometry write, not a re-entry into this handler, so a move never
    /// triggers more than one corrective step.
    pub fn handle_moved(&mut self, which: SurfaceId, x: i64, y: i64) -> (cmds: Vec<SurfaceCommand>)
        requires
            controller_wf(*old(self)),
            input_pos(x, y),
        ensures
            which is Primary ==> *final(self) == spec_move_primary(*old(self), x, y),
            which is Secondary ==> *final(self) == spec_move_secondary(*old(self), x, y),
            controller_wf(*final(self)),
            cmds@ == spec_move_commands(*old(self), which, x, y),
    {
        let mut cmds: Vec<SurfaceCommand> = Vec::new();
        match which {
            SurfaceId::Primary => {
                let w = self.primary.width;
                self.primary = SurfaceGeom { x, y, ..self.primary };
                if self.secondary_visible {
                    self.secondary = SurfaceGeom { x: x + w, y, ..self.secondary };
                    cmds.push(SurfaceCommand::SetPosition(SurfaceId::Secondary, x + w, y));
                }
            },
            SurfaceId::Secondary => {
                let w = self.primary.width;
                self.secondary = SurfaceGeom { x, y, ..self.secondary };
                self.primary = SurfaceGeom { x: x - w, y, ..self.primary };
                cmds.push(SurfaceCommand::SetPosition(SurfaceId::Primary, x - w, y));
            },
        }
        proof {
            assert(cmds@ =~= spec_move_commands(*old(self), which, x, y));
        }
        cmds
    }
}

/// Commands issued by [`SurfaceSyncController::show`].
pub open spec fn spec_show_commands(c: SurfaceSyncController) -> Seq<SurfaceCommand> {
    let tail = seq![
        SurfaceCommand::SetPosition(
            SurfaceId::Secondary,
            (c.primary.x + c.primary.width) as i64,
            c.primary.y,
        ),
        SurfaceCommand::SetSize(SurfaceId::Secondary, SECONDARY_WIDTH, c.primary.height),
        SurfaceCommand::ShowSecondary,
    ];
    if c.secondary_created {
        tail
    } else {
        seq![SurfaceCommand::CreateSecondary] + tail
    }
}

/// Commands issued by [`SurfaceSyncController::handle_focused`].
pub open spec fn spec_focus_commands(c: SurfaceSyncController, which: SurfaceId) -> Seq<
    SurfaceCommand,
> {
    match which {
        SurfaceId::Primary => {
            if c.secondary_visible {
                seq![
                    SurfaceCommand::SetAlwaysOnTop(SurfaceId::Primary, true),
                    SurfaceCommand::SetAlwaysOnTop(SurfaceId::Secondary, true),
                    SurfaceCommand::Unminimize(SurfaceId::Secondary),
                    SurfaceCommand::SetAlwaysOnTop(SurfaceId::Primary, false),
                    SurfaceCommand::SetAlwaysOnTop(SurfaceId::Secondary, false),
                ]
            } else {
                Seq::empty()
            }
        },
        SurfaceId::Secondary => {
            seq![
                SurfaceCommand::SetAlwaysOnTop(SurfaceId::Secondary, true),
                SurfaceCommand::SetAlwaysOnTop(SurfaceId::Primary, true),
                SurfaceCommand::Unminimize(SurfaceId::Primary),
                SurfaceCommand::SetAlwaysOnTop(SurfaceId::Secondary, false),
                SurfaceCommand::SetAlwaysOnTop(SurfaceId::Primary, false),
            ]
        },
    }
}

/// Commands issued by [`SurfaceSyncController::handle_moved`].
pub open spec fn spec_move_commands(
    c: SurfaceSyncController,
    which: SurfaceId,
    x: i64,
    y: i64,
) -> Seq<SurfaceCommand> {
    match which {
        SurfaceId::Primary => {
            if c.secondary_visible {
                seq![
                    SurfaceCommand::SetPosition(
                        SurfaceId::Secondary,
                        (x + c.primary.width) as i64,
                        y,
                    ),
                ]
            } else {
                Seq::empty()
            }
        },
        SurfaceId::Secondary => {
            seq![SurfaceCommand::SetPosition(SurfaceId::Primary, (x - c.primary.width) as i64, y)]
        },
    }
}

/// A move of the primary surface triggers exactly one corrective step.
/// If the corrective move of the viewer echoes back through the move
/// handler, the state does not change again: the pair converges after
/// one correction instead of oscillating.
pub proof fn lemma_primary_move_converges(c: SurfaceSyncController, x: i64, y: i64)
    requires
        controller_wf(c),
        input_pos(x, y),
        c.secondary_visible,
    ensures
        spec_move_primary(c, x, y).primary.x == x,
        spec_move_primary(c, x, y).primary.y == y,
        spec_move_primary(c, x, y).secondary.x == x + c.primary.width,
        spec_move_primary(c, x, y).secondary.y == y,
        spec_move_secondary(
            spec_move_primary(c, x, y),
            (x + c.primary.width) as i64,
            y,
        ) == spec_move_primary(c, x, y),
{
    let c1 = spec_move_primary(c, x, y);
    assert(spec_move_secondary(c1, (x + c.primary.width) as i64, y) =~= c1);
}

/// Symmetric convergence: after a move of the viewer, echoing the
/// corrective move of the primary back through the handler leaves the
/// state unchanged.
pub proof fn lemma_secondary_move_converges(c: SurfaceSyncController, x: i64, y: i64)
    requires
        controller_wf(c),
        input_pos(x, y),
    ensures
        spec_move_secondary(c, x, y).primary.x == x - c.primary.width,
        spec_move_secondary(c, x, y).primary.y == y,
        spec_move_secondary(c, x, y).secondary.x == x,
        spec_move_secondary(c, x, y).secondary.y == y,
        spec_move_primary(
            spec_move_secondary(c, x, y),
            (x - c.primary.width) as i64,
            y,
        ) == spec_move_secondary(c, x, y),
{
    let c1 = spec_move_secondary(c, x, y);
    assert(spec_move_primary(c1, (x - c.primary.width) as i64, y) =~= c1);
}

} // verus!
