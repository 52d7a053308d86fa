//! Session lifecycle behavior: connect outcomes, event routing, the
//! update-request pacing, and drain truncation on disconnect.

use vnc_viewer::engine::{
    AppState, Encoding, Engine, PreferredEncoding, UpdateEvent, UpdateRequest,
};
use vnc_viewer::pixel::{PixelFormat, Rgb};
use vnc_viewer::rect::Rect;

fn grey_format() -> PixelFormat {
    PixelFormat {
        bits_per_pixel: 8,
        big_endian: false,
        red_max: 255,
        green_max: 255,
        blue_max: 255,
        red_shift: 0,
        green_shift: 0,
        blue_shift: 0,
    }
}

fn full(width: u16, height: u16) -> Rect {
    Rect { left: 0, top: 0, width, height }
}

#[test]
fn fresh_engine_is_disconnected() {
    let e = Engine::new();
    assert_eq!(e.state, AppState::Connect);
    assert!(!e.connecting);
    assert_eq!(e.status, "Ready");
    assert_eq!(e.fb.len(), 0);
}

#[test]
fn connect_failure_surfaces_reason_verbatim() {
    let mut e = Engine::new();
    e.begin_connect();
    assert!(e.connecting);
    e.on_connect_failed("Connect Error: connection refused".to_string());
    assert_eq!(e.state, AppState::Connect);
    assert!(!e.connecting);
    assert_eq!(e.status, "Connect Error: connection refused");
}

#[test]
fn connect_success_allocates_and_requests_full_update() {
    let mut e = Engine::new();
    e.begin_connect();
    let req = e.on_connected(640, 480, grey_format());
    assert_eq!(e.state, AppState::Viewing);
    assert_eq!(e.status, "Connected");
    assert_eq!(e.fb.len(), 640 * 480);
    assert_eq!(req, UpdateRequest { rect: full(640, 480), incremental: false });
}

#[test]
fn end_of_frame_requests_incremental_update() {
    let mut e = Engine::new();
    e.on_connected(320, 200, grey_format());
    let r = e.handle_event(&UpdateEvent::EndOfFrame);
    assert_eq!(r.request, Some(UpdateRequest { rect: full(320, 200), incremental: true }));
    assert!(!r.mutated);
    assert!(!r.disconnected);
}

#[test]
fn refresh_is_full_and_non_incremental() {
    let mut e = Engine::new();
    e.on_connected(320, 200, grey_format());
    let req = e.request_refresh();
    assert_eq!(req, UpdateRequest { rect: full(320, 200), incremental: false });
}

#[test]
fn full_update_requests_leave_framebuffer_unchanged() {
    // Two requests in a row with no pixel event between: the buffer is
    // byte-for-byte what it was.
    let mut e = Engine::new();
    e.on_connected(4, 4, grey_format());
    e.handle_event(&UpdateEvent::PixelBlock(full(4, 4), (1u8..=16).collect()));
    let before: Vec<Rgb> = e.fb.pixels().clone();
    let _ = e.request_refresh();
    let t = e.process_events(&vec![UpdateEvent::EndOfFrame, UpdateEvent::EndOfFrame]);
    assert_eq!(e.fb.pixels(), &before);
    assert_eq!(t.requests.len(), 2);
    assert!(!t.redraw);
}

#[test]
fn resize_event_reallocates_black() {
    let mut e = Engine::new();
    e.on_connected(2, 2, grey_format());
    e.handle_event(&UpdateEvent::PixelBlock(full(2, 2), vec![1, 2, 3, 4]));
    let r = e.handle_event(&UpdateEvent::Resize(3, 2));
    assert!(r.mutated);
    // Old content is invalid at the new extent: a full retransmission is
    // requested.
    assert_eq!(r.request, Some(UpdateRequest { rect: full(3, 2), incremental: false }));
    assert_eq!(e.fb.len(), 6);
    for i in 0..6 {
        assert_eq!(e.fb.pixel(i), Rgb { r: 0, g: 0, b: 0 });
    }
}

#[test]
fn resize_then_block_past_the_edge() {
    // A resize to 640x480 followed by a one-pixel block addressed one
    // column past the right edge: no panic, and the size stays 640*480.
    let mut e = Engine::new();
    e.on_connected(100, 100, grey_format());
    let t = e.process_events(&vec![
        UpdateEvent::Resize(640, 480),
        UpdateEvent::PixelBlock(Rect { left: 640, top: 0, width: 1, height: 1 }, vec![0xFF]),
    ]);
    assert!(t.redraw);
    assert_eq!(e.fb.len(), 640 * 480);
    // The row the rectangle named keeps its fallback color to its edge.
    for x in 635..640 {
        assert_eq!(e.fb.pixel(x), Rgb { r: 0, g: 0, b: 0 });
    }
}

#[test]
fn disconnect_resets_state_and_abandons_queue() {
    let mut e = Engine::new();
    e.on_connected(2, 2, grey_format());
    let t = e.process_events(&vec![
        UpdateEvent::PixelBlock(full(2, 2), vec![9, 9, 9, 9]),
        UpdateEvent::Disconnected("Disconnected: peer closed".to_string()),
        UpdateEvent::Resize(5, 5),
    ]);
    assert!(t.disconnected);
    assert_eq!(e.state, AppState::Connect);
    // The resize after the disconnect was abandoned.
    assert_eq!(e.fb.len(), 4);
    // The pixel block before the disconnect did land.
    assert_eq!(e.fb.pixel(0), Rgb { r: 9, g: 9, b: 9 });
}

#[test]
fn drain_collects_requests_in_order() {
    let mut e = Engine::new();
    e.on_connected(2, 2, grey_format());
    let t = e.process_events(&vec![
        UpdateEvent::EndOfFrame,
        UpdateEvent::Resize(4, 4),
        UpdateEvent::EndOfFrame,
    ]);
    assert_eq!(t.requests.len(), 3);
    assert_eq!(t.requests[0], UpdateRequest { rect: full(2, 2), incremental: true });
    assert_eq!(t.requests[1], UpdateRequest { rect: full(4, 4), incremental: false });
    assert_eq!(t.requests[2], UpdateRequest { rect: full(4, 4), incremental: true });
    assert!(t.redraw);
    assert!(!t.disconnected);
}

#[test]
fn drain_without_mutations_requests_no_redraw() {
    let mut e = Engine::new();
    e.on_connected(2, 2, grey_format());
    let t = e.process_events(&vec![UpdateEvent::EndOfFrame]);
    assert!(!t.redraw);
    let t = e.process_events(&vec![]);
    assert!(!t.redraw);
    assert!(t.requests.is_empty());
}

#[test]
fn unsupported_block_is_skipped_in_session() {
    let mut e = Engine::new();
    let mut fmt = grey_format();
    fmt.bits_per_pixel = 24;
    e.on_connected(2, 1, fmt);
    e.handle_event(&UpdateEvent::PixelBlock(full(2, 1), vec![1, 2, 3, 4, 5, 6]));
    assert_eq!(e.fb.pixel(0), Rgb { r: 0, g: 0, b: 0 });
    assert_eq!(e.fb.pixel(1), Rgb { r: 0, g: 0, b: 0 });
}

#[test]
fn initial_encodings_prefer_compression_and_keep_raw() {
    let e = Engine::new();
    let encs = e.initial_encodings();
    assert_eq!(
        encs,
        vec![
            Encoding::Zrle,
            Encoding::CopyRect,
            Encoding::Raw,
            Encoding::Cursor,
            Encoding::DesktopSize,
        ]
    );
}

#[test]
fn encoding_choices_follow_preferences() {
    let mut e = Engine::new();
    e.preferred = PreferredEncoding::Hextile;
    e.allow_copyrect = false;
    let encs = e.encoding_choices();
    assert_eq!(
        encs,
        vec![Encoding::Hextile, Encoding::Raw, Encoding::Cursor, Encoding::DesktopSize]
    );
    e.preferred = PreferredEncoding::Raw;
    e.allow_copyrect = true;
    let encs = e.encoding_choices();
    assert_eq!(
        encs,
        vec![Encoding::CopyRect, Encoding::Raw, Encoding::Cursor, Encoding::DesktopSize]
    );
    // Raw is always present, whatever the preferences.
    for pref in [PreferredEncoding::Zrle, PreferredEncoding::Hextile, PreferredEncoding::Raw] {
        for allow in [false, true] {
            e.preferred = pref;
            e.allow_copyrect = allow;
            assert!(e.encoding_choices().contains(&Encoding::Raw));
        }
    }
}

#[test]
fn copy_event_moves_rows() {
    let mut e = Engine::new();
    e.on_connected(4, 4, grey_format());
    e.handle_event(&UpdateEvent::PixelBlock(Rect { left: 0, top: 0, width: 4, height: 1 },
        vec![11, 12, 13, 14]));
    let r = e.handle_event(&UpdateEvent::CopyRegion(
        Rect { left: 0, top: 0, width: 4, height: 1 },
        Rect { left: 0, top: 2, width: 4, height: 1 },
    ));
    assert!(r.mutated);
    for x in 0..4usize {
        assert_eq!(e.fb.pixel(2 * 4 + x), Rgb { r: 11 + x as u8, g: 11 + x as u8, b: 11 + x as u8 });
    }
}
