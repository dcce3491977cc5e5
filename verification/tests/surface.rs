use browsecore::surface::{
    SurfaceCommand, SurfaceGeom, SurfaceId, SurfaceSyncController, SECONDARY_WIDTH,
};

fn controller(x: i64, y: i64, width: i64, height: i64) -> SurfaceSyncController {
    SurfaceSyncController::new(SurfaceGeom { x, y, width, height })
}

#[test]
fn show_places_the_viewer_at_the_right_edge() {
    let mut c = controller(100, 50, 800, 600);
    let cmds = c.show();
    assert!(c.secondary_visible);
    assert!(c.secondary_created);
    assert_eq!(c.secondary.x, 900);
    assert_eq!(c.secondary.y, 50);
    assert_eq!(c.secondary.width, SECONDARY_WIDTH);
    assert_eq!(c.secondary.height, 600);
    assert_eq!(
        cmds,
        vec![
            SurfaceCommand::CreateSecondary,
            SurfaceCommand::SetPosition(SurfaceId::Secondary, 900, 50),
            SurfaceCommand::SetSize(SurfaceId::Secondary, SECONDARY_WIDTH, 600),
            SurfaceCommand::ShowSecondary,
        ]
    );
}

#[test]
fn the_viewer_is_reused_after_a_close() {
    let mut c = controller(0, 0, 800, 600);
    c.show();
    let cmds = c.handle_close_requested();
    assert!(!c.secondary_visible);
    assert!(c.secondary_created);
    assert_eq!(
        cmds,
        vec![
            SurfaceCommand::EmitClosed,
            SurfaceCommand::HideSecondary,
            SurfaceCommand::VetoClose,
        ]
    );
    // a second show does not create the surface again
    let cmds = c.show();
    assert_eq!(
        cmds,
        vec![
            SurfaceCommand::SetPosition(SurfaceId::Secondary, 800, 0),
            SurfaceCommand::SetSize(SurfaceId::Secondary, SECONDARY_WIDTH, 600),
            SurfaceCommand::ShowSecondary,
        ]
    );
}

#[test]
fn close_twice_stays_hidden() {
    let mut c = controller(0, 0, 800, 600);
    c.show();
    c.handle_close_requested();
    c.handle_close_requested();
    assert!(!c.secondary_visible);
}

#[test]
fn moving_the_primary_drags_the_viewer_once() {
    let mut c = controller(0, 0, 800, 600);
    c.show();
    let cmds = c.handle_moved(SurfaceId::Primary, 100, 50);
    assert_eq!(c.primary.x, 100);
    assert_eq!(c.primary.y, 50);
    assert_eq!(c.secondary.x, 900);
    assert_eq!(c.secondary.y, 50);
    assert_eq!(cmds, vec![SurfaceCommand::SetPosition(SurfaceId::Secondary, 900, 50)]);
    // the corrective move echoing back leaves everything in place
    let echo = c.handle_moved(SurfaceId::Secondary, 900, 50);
    assert_eq!(c.primary.x, 100);
    assert_eq!(c.primary.y, 50);
    assert_eq!(c.secondary.x, 900);
    assert_eq!(echo, vec![SurfaceCommand::SetPosition(SurfaceId::Primary, 100, 50)]);
}

#[test]
fn moving_the_viewer_drags_the_primary_once() {
    let mut c = controller(0, 0, 800, 600);
    c.show();
    c.handle_moved(SurfaceId::Primary, 100, 50);
    let cmds = c.handle_moved(SurfaceId::Secondary, 950, 50);
    assert_eq!(c.primary.x, 150);
    assert_eq!(c.primary.y, 50);
    assert_eq!(c.secondary.x, 950);
    assert_eq!(cmds, vec![SurfaceCommand::SetPosition(SurfaceId::Primary, 150, 50)]);
}

#[test]
fn moving_the_primary_while_hidden_moves_nothing_else() {
    let mut c = controller(0, 0, 800, 600);
    let cmds = c.handle_moved(SurfaceId::Primary, 40, 60);
    assert_eq!(c.primary.x, 40);
    assert_eq!(c.primary.y, 60);
    assert!(cmds.is_empty());
}

#[test]
fn focusing_the_primary_raises_the_pair_with_a_transient_toggle() {
    let mut c = controller(0, 0, 800, 600);
    c.show();
    let cmds = c.handle_focused(SurfaceId::Primary);
    assert_eq!(
        cmds,
        vec![
            SurfaceCommand::SetAlwaysOnTop(SurfaceId::Primary, true),
            SurfaceCommand::SetAlwaysOnTop(SurfaceId::Secondary, true),
            SurfaceCommand::Unminimize(SurfaceId::Secondary),
            SurfaceCommand::SetAlwaysOnTop(SurfaceId::Primary, false),
            SurfaceCommand::SetAlwaysOnTop(SurfaceId::Secondary, false),
        ]
    );
}

#[test]
fn focusing_the_primary_with_the_viewer_hidden_is_a_no_op() {
    let mut c = controller(0, 0, 800, 600);
    let cmds = c.handle_focused(SurfaceId::Primary);
    assert!(cmds.is_empty());
}

#[test]
fn focusing_the_viewer_raises_the_pair_symmetrically() {
    let mut c = controller(0, 0, 800, 600);
    c.show();
    let cmds = c.handle_focused(SurfaceId::Secondary);
    assert_eq!(
        cmds,
        vec![
            SurfaceCommand::SetAlwaysOnTop(SurfaceId::Secondary, true),
            SurfaceCommand::SetAlwaysOnTop(SurfaceId::Primary, true),
            SurfaceCommand::Unminimize(SurfaceId::Primary),
            SurfaceCommand::SetAlwaysOnTop(SurfaceId::Secondary, false),
            SurfaceCommand::SetAlwaysOnTop(SurfaceId::Primary, false),
        ]
    );
}
