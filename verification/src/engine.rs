//! The session lifecycle and update scheduler: a two-state machine that
//! owns the framebuffer, routes protocol events to the compositor, decides
//! when the next update request is due, and carries the user-visible status
//! line. The network itself stays outside: the caller performs each
//! returned request and hands events back in arrival order.

use vstd::prelude::*;
use crate::framebuffer::{spec_blank, spec_copy_region, spec_write_block, Framebuffer};
use crate::input::ThrottleState;
use crate::pixel::{PixelFormat, Rgb};
use crate::rect::Rect;

verus! {

/// The lifecycle states: no active session (the connect form), or a live
/// session being viewed.
#[derive(Clone, Copy, Debug, PartialEq, Eq, Structural)]
pub enum AppState {
    Connect,
    Viewing,
}

/// The encodings the session can be asked to prefer.
#[derive(Clone, Copy, Debug, PartialEq, Eq, Structural)]
pub enum Encoding {
    Zrle,
    Hextile,
    CopyRect,
    Raw,
    Cursor,
    DesktopSize,
}

/// The user's preferred primary encoding.
#[derive(Clone, Copy, Debug, PartialEq, Eq, Structural)]
pub enum PreferredEncoding {
    Zrle,
    Hextile,
    Raw,
}

/// An update request to send to the session: the region to refresh, and
/// whether the server may elide unchanged parts.
#[derive(Clone, Copy, Debug, PartialEq, Eq, Structural)]
pub struct UpdateRequest {
    pub rect: Rect,
    pub incremental: bool,
}

/// A protocol-level update event, consumed strictly in arrival order.
#[derive(Debug)]
pub enum UpdateEvent {
    /// The session ended; the reason is surfaced as text.
    Disconnected(String),
    /// The remote screen changed extent.
    Resize(u16, u16),
    /// A rectangle of pixels in the negotiated wire format.
    PixelBlock(Rect, Vec<u8>),
    /// An intra-buffer copy from one rectangle to another.
    CopyRegion(Rect, Rect),
    /// All rectangles of the current update batch have been delivered.
    EndOfFrame,
}

/// What one event asks of the caller.
#[derive(Debug)]
pub struct EventResponse {
    /// An update request to send, if the event calls for one.
    pub request: Option<UpdateRequest>,
    /// Whether the event mutated pixels, so a redraw is due.
    pub mutated: bool,
    /// Whether the session ended with this event.
    pub disconnected: bool,
}

/// What a whole tick's drain asks of the caller.
#[derive(Debug)]
pub struct TickOutcome {
    /// The update requests to send, in order.
    pub requests: Vec<UpdateRequest>,
    /// Whether at least one pixel-mutating event was processed.
    pub redraw: bool,
    /// Whether the session ended during the drain.
    pub disconnected: bool,
}

/// The mathematical value of an `Engine`.
pub struct EngineView {
    pub state: AppState,
    pub connecting: bool,
    pub fb: Seq<Rgb>,
    pub width: u16,
    pub height: u16,
    pub format: PixelFormat,
    pub status: Seq<char>,
    pub view_only: bool,
    pub preferred: PreferredEncoding,
    pub allow_copyrect: bool,
    pub throttle: ThrottleState,
}

/// The value of an engine after one event, together with what the event
/// asks of the caller.
pub struct StepResult {
    pub e: EngineView,
    pub request: Option<UpdateRequest>,
    pub mutated: bool,
    pub disconnected: bool,
}

/// What one protocol event does to the engine.
///
/// - `Disconnected` falls back to the connect state; the buffer is kept,
///   stale, for the next session to replace.
/// - `Resize` reallocates the buffer at the new extent, filled with the
///   fallback color, and asks for a full (non-incremental) update over the
///   new extent, since the old screen content is invalid.
/// - `PixelBlock` decodes and writes the block; a block in an unsupported
///   sample width is skipped whole.
/// - `CopyRegion` performs the directional in-place copy.
/// - `EndOfFrame` asks for the next incremental update over the entire
///   current extent, and touches nothing.
pub open spec fn spec_step(v: EngineView, ev: UpdateEvent) -> StepResult {
    match ev {
        UpdateEvent::Disconnected(_reason) => StepResult {
            e: EngineView { state: AppState::Connect, connecting: false, ..v },
            request: None,
            mutated: false,
            disconnected: true,
        },
        UpdateEvent::Resize(w, h) => StepResult {
            e: EngineView { fb: spec_blank(w * h), width: w, height: h, ..v },
            request: Some(
                UpdateRequest {
                    rect: Rect { left: 0, top: 0, width: w, height: h },
                    incremental: false,
                },
            ),
            mutated: true,
            disconnected: false,
        },
        UpdateEvent::PixelBlock(rect, bytes) => StepResult {
            e: EngineView {
                fb: if v.format.spec_supported() {
                    spec_write_block(v.fb, rect, bytes@, v.format, v.width as int)
                } else {
                    v.fb
                },
                ..v
            },
            request: None,
            mutated: true,
            disconnected: false,
        },
        UpdateEvent::CopyRegion(src, dst) => StepResult {
            e: EngineView { fb: spec_copy_region(v.fb, src, dst, v.width as int), ..v },
            request: None,
            mutated: true,
            disconnected: false,
        },
        UpdateEvent::EndOfFrame => StepResult {
            e: v,
            request: Some(
                UpdateRequest {
                    rect: Rect { left: 0, top: 0, width: v.width, height: v.height },
                    incremental: true,
                },
            ),
            mutated: false,
            disconnected: false,
        },
    }
}

/// The framebuffer synchronization engine: the lifecycle state, the pixel
/// buffer with the negotiated format, the status line, and the display and
/// input preferences.
pub struct Engine {
    pub state: AppState,
    pub connecting: bool,
    pub fb: Framebuffer,
    pub format: PixelFormat,
    pub status: String,
    pub view_only: bool,
    pub preferred: PreferredEncoding,
    pub allow_copyrect: bool,
    pub throttle: ThrottleState,
}

impl View for Engine {
    type V = EngineView;

    open spec fn view(&self) -> EngineView {
        EngineView {
            state: self.state,
            connecting: self.connecting,
            fb: self.fb@,
            width: self.fb.spec_width(),
            height: self.fb.spec_height(),
            format: self.format,
            status: self.status@,
            view_only: self.view_only,
            preferred: self.preferred,
            allow_copyrect: self.allow_copyrect,
            throttle: self.throttle,
        }
    }
}

impl Engine {
    /// The pixel buffer is exactly as large as its extent says.
    pub open spec fn wf(&self) -> bool {
        self.fb.wf()
    }

    /// A fresh engine: disconnected, empty buffer, ready status, default
    /// preferences.
    pub fn new() -> (e: Engine)
        ensures
            e.wf(),
            e@.state == AppState::Connect,
            !e@.connecting,
            e@.fb =~= Seq::<Rgb>::empty(),
            e@.width == 0,
            e@.height == 0,
            e@.format == (PixelFormat {
                bits_per_pixel: 32,
                big_endian: false,
                red_max: 255,
                green_max: 255,
                blue_max: 255,
                red_shift: 16,
                green_shift: 8,
                blue_shift: 0,
            }),
            e@.status == "Ready"@,
            !e@.view_only,
            e@.preferred == PreferredEncoding::Zrle,
            e@.allow_copyrect,
            e@.throttle == (ThrottleState { last_pos: None, last_buttons: 0 }),
    {
        Engine {
            state: AppState::Connect,
            connecting: false,
            fb: Framebuffer::new(),
            format: PixelFormat {
                bits_per_pixel: 32,
                big_endian: false,
                red_max: 255,
                green_max: 255,
                blue_max: 255,
                red_shift: 16,
                green_shift: 8,
                blue_shift: 0,
            },
            status: String::from_str("Ready"),
            view_only: false,
            preferred: PreferredEncoding::Zrle,
            allow_copyrect: true,
            throttle: ThrottleState { last_pos: None, last_buttons: 0 },
        }
    }

    /// Replaces the user-visible status line.
    pub fn set_status(&mut self, status: String)
        ensures
            final(self)@ == (EngineView { status: status@, ..old(self)@ }),
    {
        self.status = status;
    }

    /// Records that a background connection attempt is in flight. The
    /// state stays disconnected until an outcome arrives.
    pub fn begin_connect(&mut self)
        ensures
            final(self)@ == (EngineView { connecting: true, ..old(self)@ }),
    {
        self.connecting = true;
    }

    /// A background connection attempt failed: the reason becomes the
    /// status line, verbatim, and the engine stays disconnected.
    pub fn on_connect_failed(&mut self, reason: String)
        ensures
            final(self)@ == (EngineView { connecting: false, status: reason@, ..old(self)@ }),
    {
        self.connecting = false;
        self.status = reason;
    }

    /// A background connection attempt succeeded: the engine switches to
    /// viewing, allocates the buffer at the session's reported extent in
    /// the fallback color, adopts the negotiated pixel format, and returns
    /// the initial full (non-incremental) update request.
    pub fn on_connected(&mut self, width: u16, height: u16, format: PixelFormat) -> (req:
        UpdateRequest)
        ensures
            final(self).wf(),
            final(self)@ == (EngineView {
                state: AppState::Viewing,
                connecting: false,
                fb: spec_blank(width * height),
                width: width,
                height: height,
                format: format,
                status: "Connected"@,
                ..old(self)@
            }),
            req == (UpdateRequest {
                rect: Rect { left: 0, top: 0, width, height },
                incremental: false,
            }),
    {
        self.state = AppState::Viewing;
        self.connecting = false;
        self.fb.apply_resize(width, height);
        self.format = format;
        self.status = String::from_str("Connected");
        UpdateRequest { rect: Rect::full_extent(width, height), incremental: false }
    }

    /// A user-triggered refresh: a full (non-incremental) request over the
    /// entire current extent, forcing the server to resend everything.
    /// Takes the engine read-only: requesting can never change the buffer.
    pub fn request_refresh(&self) -> (req: UpdateRequest)
        ensures
            req == (UpdateRequest {
                rect: Rect { left: 0, top: 0, width: self@.width, height: self@.height },
                incremental: false,
            }),
    {
        UpdateRequest {
            rect: Rect::full_extent(self.fb.width(), self.fb.height()),
            incremental: false,
        }
    }

    /// Routes one protocol event: pixel data and copies go to the
    /// compositor, a resize reallocates, end-of-frame schedules the next
    /// incremental update, a disconnect falls back to the connect state.
    pub fn handle_event(&mut self, ev: &UpdateEvent) -> (r: EventResponse)
        requires
            old(self).wf(),
        ensures
            final(self).wf(),
            final(self)@ == spec_step(old(self)@, *ev).e,
            r.request == spec_step(old(self)@, *ev).request,
            r.mutated == spec_step(old(self)@, *ev).mutated,
            r.disconnected == spec_step(old(self)@, *ev).disconnected,
    {
        match ev {
            UpdateEvent::Disconnected(_reason) => {
                self.state = AppState::Connect;
                self.connecting = false;
                EventResponse { request: None, mutated: false, disconnected: true }
            },
            UpdateEvent::Resize(w, h) => {
                self.fb.apply_resize(*w, *h);
                // The old screen content is invalid at the new extent, so
                // a full retransmission is due.
                EventResponse {
                    request: Some(
                        UpdateRequest { rect: Rect::full_extent(*w, *h), incremental: false },
                    ),
                    mutated: true,
                    disconnected: false,
                }
            },
            UpdateEvent::PixelBlock(rect, bytes) => {
                // A block in an unsupported sample width is skipped whole;
                // the session goes on.
                let _ = self.fb.write_pixels(*rect, bytes, self.format);
                EventResponse { request: None, mutated: true, disconnected: false }
            },
            UpdateEvent::CopyRegion(src, dst) => {
                self.fb.copy_region(*src, *dst);
                EventResponse { request: None, mutated: true, disconnected: false }
            },
            UpdateEvent::EndOfFrame => {
                let w = self.fb.width();
                let h = self.fb.height();
                EventResponse {
                    request: Some(UpdateRequest { rect: Rect::full_extent(w, h), incremental: true }),
                    mutated: false,
                    disconnected: false,
                }
            },
        }
    }
}

/// The engine and the caller's obligations after draining a tick's queue.
pub struct DrainResult {
    pub e: EngineView,
    pub requests: Seq<UpdateRequest>,
    pub redraw: bool,
    pub disconnected: bool,
}

/// What a whole tick does: the queued events are folded in arrival order;
/// a disconnect abandons the rest of the queue; the tick asks for a redraw
/// exactly when at least one pixel-mutating event was processed.
pub open spec fn spec_drain(v: EngineView, evs: Seq<UpdateEvent>) -> DrainResult
    decreases evs.len(),
{
    if evs.len() == 0 {
        DrainResult { e: v, requests: Seq::empty(), redraw: false, disconnected: false }
    } else {
        let s = spec_step(v, evs[0]);
        if s.disconnected {
            DrainResult { e: s.e, requests: Seq::empty(), redraw: false, disconnected: true }
        } else {
            let rest = spec_drain(s.e, evs.skip(1));
            DrainResult {
                e: rest.e,
                requests: match s.request {
                    Some(q) => seq![q] + rest.requests,
                    None => rest.requests,
                },
                redraw: s.mutated || rest.redraw,
                disconnected: rest.disconnected,
            }
        }
    }
}

impl Engine {
    /// Drains one tick's worth of events in arrival order. Each event is
    /// routed as `handle_event` routes it; a `Disconnected` event ends the
    /// drain and abandons the remaining events. The outcome lists the
    /// update requests to send, in order, and says whether pixels changed
    /// so that exactly one redraw is due.
    #[verifier::loop_isolation(false)]
    pub fn process_events(&mut self, events: &Vec<UpdateEvent>) -> (t: TickOutcome)
        requires
            old(self).wf(),
        ensures
            final(self).wf(),
            final(self)@ == spec_drain(old(self)@, events@).e,
            t.requests@ == spec_drain(old(self)@, events@).requests,
            t.redraw == spec_drain(old(self)@, events@).redraw,
            t.disconnected == spec_drain(old(self)@, events@).disconnected,
    {
        let ghost full = spec_drain(old(self)@, events@);
        let mut requests: Vec<UpdateRequest> = Vec::new();
        let mut redraw = false;
        let mut disc = false;
        let mut i: usize = 0;
        proof {
            assert(events@.skip(0) =~= events@);
            assert(Seq::<UpdateRequest>::empty() + full.requests =~= full.requests);
        }
        while i < events.len() && !disc
            invariant
                i <= events@.len(),
                self.wf(),
                full == spec_drain(old(self)@, events@),
                !disc ==> ({
                    let rest = spec_drain(self@, events@.skip(i as int));
                    full.e == rest.e && full.requests == requests@ + rest.requests && full.redraw
                        == (redraw || rest.redraw) && full.disconnected == rest.disconnected
                }),
                disc ==> (full.e == self@ && full.requests == requests@ && full.redraw == redraw
                    && full.disconnected),
            decreases events@.len() - i,
        {
            let ghost pre = self@;
            let ghost tail = events@.skip(i as int);
            let ev = &events[i];
            let r = self.handle_event(ev);
            proof {
                assert(tail[0] == events@[i as int]);
                assert(tail.skip(1) =~= events@.skip(i as int + 1));
            }
            if r.disconnected {
                disc = true;
                proof {
                    assert(requests@ + Seq::<UpdateRequest>::empty() =~= requests@);
                }
            } else {
                let ghost s = spec_step(pre, events@[i as int]);
                match r.request {
                    Some(q) => {
                        requests.push(q);
                        proof {
                            let rest = spec_drain(self@, events@.skip(i as int + 1));
                            assert(requests@ + rest.requests =~= (requests@.drop_last()) + (seq![q]
                                + rest.requests));
                        }
                    },
                    None => {},
                }
                redraw = redraw || r.mutated;
            }
            i = i + 1;
        }
        proof {
            if !disc {
                assert(events@.skip(i as int) =~= Seq::<UpdateEvent>::empty());
                assert(requests@ + Seq::<UpdateRequest>::empty() =~= requests@);
            }
        }
        TickOutcome { requests, redraw, disconnected: disc }
    }

    /// The encoding list negotiated right after connecting, ordered by
    /// preference, with raw always included as the fallback of last
    /// resort.
    pub fn initial_encodings(&self) -> (encs: Vec<Encoding>)
        ensures
            encs@ =~= seq![
                Encoding::Zrle,
                Encoding::CopyRect,
                Encoding::Raw,
                Encoding::Cursor,
                Encoding::DesktopSize,
            ],
            encs@.contains(Encoding::Raw),
    {
        let mut encs: Vec<Encoding> = Vec::new();
        encs.push(Encoding::Zrle);
        encs.push(Encoding::CopyRect);
        encs.push(Encoding::Raw);
        encs.push(Encoding::Cursor);
        encs.push(Encoding::DesktopSize);
        proof {
            assert(encs@[2] == Encoding::Raw);
        }
        encs
    }

    /// The encoding list for the current preferences: the preferred
    /// compressed encoding first (none for a raw preference), the copy
    /// encoding when allowed, then raw — always present as the fallback of
    /// last resort — and the cursor and resize notifications.
    pub fn encoding_choices(&self) -> (encs: Vec<Encoding>)
        ensures
            encs@ =~= {
                let head: Seq<Encoding> = match self@.preferred {
                    PreferredEncoding::Zrle => seq![Encoding::Zrle],
                    PreferredEncoding::Hextile => seq![Encoding::Hextile],
                    PreferredEncoding::Raw => Seq::empty(),
                };
                let copy: Seq<Encoding> = if self@.allow_copyrect {
                    seq![Encoding::CopyRect]
                } else {
                    Seq::empty()
                };
                head + copy + seq![Encoding::Raw, Encoding::Cursor, Encoding::DesktopSize]
            },
            encs@.contains(Encoding::Raw),
    {
        let mut encs: Vec<Encoding> = Vec::new();
        match self.preferred {
            PreferredEncoding::Zrle => encs.push(Encoding::Zrle),
            PreferredEncoding::Hextile => encs.push(Encoding::Hextile),
            PreferredEncoding::Raw => {},
        }
        if self.allow_copyrect {
            encs.push(Encoding::CopyRect);
        }
        let ghost before_raw = encs@.len() as int;
        encs.push(Encoding::Raw);
        encs.push(Encoding::Cursor);
        encs.push(Encoding::DesktopSize);
        proof {
            assert(encs@[before_raw] == Encoding::Raw);
        }
        encs
    }
}

/// The numeric value of a run of decimal digits, most significant first.
pub open spec fn spec_dec_value(s: Seq<char>) -> int
    decreases s.len(),
{
    if s.len() == 0 {
        0
    } else {
        spec_dec_value(s.drop_last()) * 10 + (s.last() as int - '0' as int)
    }
}

/// At least one character, and every character a decimal digit.
pub open spec fn spec_all_digits(s: Seq<char>) -> bool {
    s.len() > 0 && forall|i: int| 0 <= i < s.len() ==> '0' <= #[trigger] s[i] <= '9'
}

/// The port a connect form's port field names: an optional leading plus
/// sign, then decimal digits with a value of at most 65535. Anything else
/// falls back to the default port 5900.
pub open spec fn spec_parse_port(s: Seq<char>) -> u16 {
    let t = if s.len() > 0 && s[0] == '+' {
        s.skip(1)
    } else {
        s
    };
    if spec_all_digits(t) && spec_dec_value(t) <= 65535 {
        spec_dec_value(t) as u16
    } else {
        5900
    }
}

/// A run of digits has a non-negative value.
proof fn lemma_dec_value_nonneg(s: Seq<char>)
    requires
        forall|i: int| 0 <= i < s.len() ==> '0' <= #[trigger] s[i] <= '9',
    ensures
        spec_dec_value(s) >= 0,
    decreases s.len(),
{
    if s.len() > 0 {
        assert(forall|i: int|
            0 <= i < s.drop_last().len() ==> '0' <= #[trigger] s.drop_last()[i] <= '9');
        lemma_dec_value_nonneg(s.drop_last());
    }
}

/// Parses the port field of the connect form; a malformed or overflowing
/// value falls back to the default port.
#[verifier::loop_isolation(false)]
pub fn parse_port(s: &str) -> (p: u16)
    ensures
        p == spec_parse_port(s@),
{
    let len = s.unicode_len();
    let start: usize = if len > 0 && s.get_char(0) == '+' {
        1
    } else {
        0
    };
    let ghost t = if start == 1 {
        s@.skip(1)
    } else {
        s@
    };
    proof {
        assert(t =~= s@.subrange(start as int, len as int));
    }
    if start == len {
        return 5900;
    }
    let mut value: u32 = 0;
    let mut overflow = false;
    let mut i: usize = start;
    proof {
        assert(s@.subrange(start as int, start as int) =~= Seq::<char>::empty());
    }
    while i < len
        invariant
            start <= i <= len,
            forall|j: int| start <= j < i ==> '0' <= #[trigger] s@[j] <= '9',
            !overflow ==> value == spec_dec_value(s@.subrange(start as int, i as int)) && value
                <= 65535,
            overflow ==> spec_dec_value(s@.subrange(start as int, i as int)) > 65535,
        decreases len - i,
    {
        let c = s.get_char(i);
        if c < '0' || c > '9' {
            proof {
                assert(t[i - start] == s@[i as int]);
                assert(!spec_all_digits(t));
            }
            return 5900;
        }
        let d = (c as u32) - ('0' as u32);
        let ghost sub = s@.subrange(start as int, i as int);
        let ghost sub1 = s@.subrange(start as int, i as int + 1);
        proof {
            assert(sub1.drop_last() =~= sub);
            assert(sub1.last() == s@[i as int]);
            assert(forall|j: int| 0 <= j < sub.len() ==> '0' <= #[trigger] sub[j] <= '9');
            lemma_dec_value_nonneg(sub);
        }
        if !overflow {
            let nv = value * 10 + d;
            if nv > 65535 {
                overflow = true;
            } else {
                value = nv;
            }
        }
        i = i + 1;
    }
    proof {
        assert(forall|j: int| 0 <= j < t.len() ==> '0' <= #[trigger] t[j] <= '9');
        assert(spec_all_digits(t));
    }
    if overflow {
        5900
    } else {
        value as u16
    }
}

/// The fixed-size key block a session password is truncated or
/// zero-padded to for the authentication challenge.
pub fn password_key(password: &Vec<u8>) -> (k: Vec<u8>)
    ensures
        k@.len() == 8,
        forall|i: int|
            0 <= i < 8 ==> k@[i] == (if i < password@.len() {
                password@[i]
            } else {
                0u8
            }),
{
    let mut k: Vec<u8> = Vec::new();
    let mut i: usize = 0;
    while i < 8
        invariant
            i <= 8,
            k@.len() == i,
            forall|j: int|
                0 <= j < i ==> k@[j] == (if j < password@.len() {
                    password@[j]
                } else {
                    0u8
                }),
        decreases 8 - i,
    {
        if i < password.len() {
            let b = password[i];
            k.push(b);
        } else {
            k.push(0u8);
        }
        i = i + 1;
    }
    k
}

/// Scheduling update requests never touches pixels: an end-of-frame driven
/// request — twice in a row, with no pixel event between — leaves the
/// framebuffer exactly as it was.
pub proof fn lemma_requests_preserve_framebuffer(v: EngineView)
    ensures
        spec_step(v, UpdateEvent::EndOfFrame).e.fb == v.fb,
        spec_step(spec_step(v, UpdateEvent::EndOfFrame).e, UpdateEvent::EndOfFrame).e.fb == v.fb,
{
}

} // verus!
