//! The per-connection painter state machine: login, slot awareness and the
//! pixels queued for the current slot.
use vstd::prelude::*;

use crate::framebuffer::{apply_updates, pack_updates, FrameBuffer, PixelUpdate};
use crate::message::{is_user_painting, WebSocketMessage};
use crate::parser::{parse_request, spec_parse_request, Request, RequestView};
use crate::response::Response;
use crate::scheduler::{names_of, UserScheduler};

verus! {

/// What the scheduler tells a painter.
#[derive(Debug, Clone, Copy, PartialEq, Eq)]
pub enum SlotEvent {
    SlotStart,
    SlotEnd,
}

/// What the connection does after a line or an event.
pub enum Step {
    /// Nothing to send.
    Silent,
    /// Send this reply (and close if it says so).
    Reply(Response),
    /// Check these credentials and hand the verdict to
    /// `ClientConnection::complete_login`.
    CheckCredentials { username: String, password: String },
    /// Publish this event to spectators, then send the reply.
    Publish { event: WebSocketMessage, response: Response },
}

/// The state of a painter connection.
pub struct ClientConnection {
    max_pixels_per_slot: u32,
    slot_duration_ms: u64,
    width: u16,
    height: u16,
    painted: Vec<PixelUpdate>,
    current_username: Option<String>,
    currently_in_slot: bool,
    painting_finished: bool,
    current_pixel_count: u32,
    /// Pixels flushed to the canvas since the current slot started.
    applied_in_slot: Ghost<nat>,
}

/// A painter connection as the contracts see it.
pub struct ClientConnectionView {
    pub max_pixels_per_slot: u32,
    pub slot_duration_ms: u64,
    pub width: u16,
    pub height: u16,
    pub username: Option<Seq<char>>,
    pub in_slot: bool,
    pub painting_finished: bool,
    /// Pixel writes accepted since the slot started.
    pub pixel_count: nat,
    /// Pixel writes queued and not yet flushed.
    pub pending: Seq<PixelUpdate>,
    /// Pixels flushed to the canvas since the slot started.
    pub applied_in_slot: nat,
}

impl View for ClientConnection {
    type V = ClientConnectionView;

    closed spec fn view(&self) -> ClientConnectionView {
        ClientConnectionView {
            max_pixels_per_slot: self.max_pixels_per_slot,
            slot_duration_ms: self.slot_duration_ms,
            width: self.width,
            height: self.height,
            username: match self.current_username {
                Some(u) => Some(u@),
                None => None,
            },
            in_slot: self.currently_in_slot,
            painting_finished: self.painting_finished,
            pixel_count: self.current_pixel_count as nat,
            pending: self.painted@,
            applied_in_slot: self.applied_in_slot@,
        }
    }
}

impl ClientConnectionView {
    /// The session invariant: nothing is queued outside a slot, queued
    /// pixels belong to a logged-in painter, and what was queued or flushed
    /// in this slot is what was counted, which stays within the quota.
    pub open spec fn wf(self) -> bool {
        &&& !self.in_slot ==> self.pending.len() == 0
        &&& self.pending.len() > 0 ==> self.username is Some
        &&& self.applied_in_slot + self.pending.len() == self.pixel_count
        &&& self.pixel_count <= self.max_pixels_per_slot
    }

    /// Same session with only the queue and counters as given.
    pub open spec fn with_slot_state(
        self,
        in_slot: bool,
        painting_finished: bool,
        pixel_count: nat,
        pending: Seq<PixelUpdate>,
        applied_in_slot: nat,
    ) -> Self {
        ClientConnectionView { in_slot, painting_finished, pixel_count, pending, applied_in_slot, ..self }
    }
}

/// What a session does with a request, given the canvas it reads:
/// the reply, or `None` where the step is not a plain reply.
pub open spec fn plain_reply(s: ClientConnectionView, fb_pixel: Option<u32>, req: RequestView) -> Option<Response> {
    match req {
        RequestView::Help => Some(Response::Help),
        RequestView::Size => Some(Response::Size { width: s.width, height: s.height }),
        RequestView::Login { .. } => if s.username is Some {
            Some(Response::AlreadyLoggedIn)
        } else {
            None
        },
        RequestView::GetPixel { x, y } => match fb_pixel {
            Some(rgba) => Some(Response::GetPixel { x, y, rgba }),
            None => None,
        },
        RequestView::SetPixel { .. } => if s.username is None {
            Some(Response::LoginNeeded)
        } else if !s.in_slot {
            Some(Response::NotYourSlot)
        } else if s.pixel_count >= s.max_pixels_per_slot {
            Some(Response::QuotaExceeded { max_pixels_per_slot: s.max_pixels_per_slot })
        } else {
            None
        },
        RequestView::Done => if s.username is None {
            Some(Response::LoginNeeded)
        } else {
            None
        },
    }
}

/// How a session in state `s` handles request `req` on canvas `fb`: the
/// step `r` it returns, and the session `s2` and canvas `fb2` after it.
pub open spec fn handles_request(
    s: ClientConnectionView,
    fb: FrameBuffer,
    fb2: FrameBuffer,
    s2: ClientConnectionView,
    req: RequestView,
    r: Step,
) -> bool {
    let px = match req {
        RequestView::GetPixel { x, y } => fb.spec_get(x, y),
        _ => None,
    };
    match plain_reply(s, px, req) {
        Some(resp) => r == Step::Reply(resp) && s2 == s && fb2@ == fb@,
        None => match req {
            RequestView::Login { username, password } => {
                &&& r matches Step::CheckCredentials { username: u, password: p }
                &&& u@ == username && p@ == password
                &&& s2 == s && fb2@ == fb@
            },
            RequestView::GetPixel { .. } => r is Silent && s2 == s && fb2@ == fb@,
            RequestView::SetPixel { x, y, rgba } => {
                &&& r is Silent
                &&& fb2@ == fb@
                &&& s2 == s.with_slot_state(
                    s.in_slot,
                    s.painting_finished,
                    s.pixel_count + 1,
                    s.pending.push(PixelUpdate { x, y, rgba }),
                    s.applied_in_slot,
                )
            },
            _ => {
                &&& r matches Step::Publish { event, response }
                &&& is_user_painting(event, s.username->Some_0, pack_updates(s.pending))
                &&& response == Response::Done { num_pixels: s.pending.len() as u32 }
                &&& fb2@ == apply_updates(fb.spec_width(), fb.spec_height(), fb@, s.pending)
                &&& s2 == s.with_slot_state(
                    s.in_slot,
                    true,
                    s.pixel_count,
                    seq![],
                    s.applied_in_slot + s.pending.len(),
                )
            },
        },
    }
}

impl ClientConnection {
    pub fn new(max_pixels_per_slot: u32, slot_duration_ms: u64, width: u16, height: u16) -> (r: Self)
        ensures
            r@.wf(),
            r@ == (ClientConnectionView {
                max_pixels_per_slot,
                slot_duration_ms,
                width,
                height,
                username: None,
                in_slot: false,
                painting_finished: false,
                pixel_count: 0,
                pending: seq![],
                applied_in_slot: 0,
            }),
    {
        let r = ClientConnection {
            max_pixels_per_slot,
            slot_duration_ms,
            width,
            height,
            painted: Vec::new(),
            current_username: None,
            currently_in_slot: false,
            painting_finished: false,
            current_pixel_count: 0,
            applied_in_slot: Ghost(0),
        };
        assert(r@.pending =~= seq![]);
        r
    }

    /// The username of the logged-in painter, if any.
    pub fn username(&self) -> (r: Option<&String>)
        ensures
            match r {
                Some(u) => self@.username == Some(u@),
                None => self@.username is None,
            },
    {
        match &self.current_username {
            Some(u) => Some(u),
            None => None,
        }
    }

    /// Reacts to a scheduler event. A second `SlotStart` inside a slot and a
    /// `SlotEnd` outside one are ignored. `SlotEnd` drops what is still
    /// queued, and ends the connection unless `DONE` came in time.
    pub fn on_slot_event(&mut self, event: SlotEvent) -> (r: Option<Response>)
        requires
            old(self)@.wf(),
        ensures
            final(self)@.wf(),
            match event {
                SlotEvent::SlotStart => if old(self)@.in_slot {
                    r is None && final(self)@ == old(self)@
                } else {
                    &&& r == Some(
                        Response::Start {
                            max_pixels_per_slot: old(self)@.max_pixels_per_slot,
                            slot_duration_ms: old(self)@.slot_duration_ms,
                        },
                    )
                    &&& final(self)@ == old(self)@.with_slot_state(true, false, 0, seq![], 0)
                },
                SlotEvent::SlotEnd => if !old(self)@.in_slot {
                    r is None && final(self)@ == old(self)@
                } else {
                    &&& r == (if old(self)@.painting_finished {
                        None
                    } else {
                        Some(Response::SlotNotClosedInTime { slot_duration_ms: old(self)@.slot_duration_ms })
                    })
                    &&& final(self)@ == old(self)@.with_slot_state(
                        false,
                        old(self)@.painting_finished,
                        0,
                        seq![],
                        0,
                    )
                },
            },
    {
        match event {
            SlotEvent::SlotStart => {
                if self.currently_in_slot {
                    None
                } else {
                    self.currently_in_slot = true;
                    self.painting_finished = false;
                    self.current_pixel_count = 0;
                    self.applied_in_slot = Ghost(0);
                    assert(self.painted@ =~= seq![]);
                    Some(
                        Response::Start {
                            max_pixels_per_slot: self.max_pixels_per_slot,
                            slot_duration_ms: self.slot_duration_ms,
                        },
                    )
                }
            },
            SlotEvent::SlotEnd => {
                if !self.currently_in_slot {
                    None
                } else {
                    self.currently_in_slot = false;
                    self.painted.clear();
                    self.current_pixel_count = 0;
                    self.applied_in_slot = Ghost(0);
                    assert(self.painted@ =~= seq![]);
                    if self.painting_finished {
                        None
                    } else {
                        Some(Response::SlotNotClosedInTime { slot_duration_ms: self.slot_duration_ms })
                    }
                }
            },
        }
    }

    /// Records the verdict on the credentials of a `LOGIN`.
    pub fn login_result(&mut self, username: String, accepted: bool) -> (r: Response)
        requires
            old(self)@.wf(),
        ensures
            final(self)@.wf(),
            accepted ==> r == Response::LoginSucceeded && final(self)@ == (ClientConnectionView {
                username: Some(username@),
                ..old(self)@
            }),
            !accepted ==> r == Response::LoginFailed && final(self)@ == old(self)@,
    {
        if accepted {
            self.current_username = Some(username);
            Response::LoginSucceeded
        } else {
            Response::LoginFailed
        }
    }

    /// Completes a `LOGIN` once the credentials are checked: with accepted
    /// credentials the painter is registered with `scheduler` (its slot
    /// events going to `mailbox`) and logged in, unless the scheduler
    /// refuses it; otherwise nothing changes.
    pub fn complete_login<M>(
        &mut self,
        scheduler: &mut UserScheduler<M>,
        username: String,
        accepted: bool,
        mailbox: M,
    ) -> (r: Response)
        requires
            old(self)@.wf(),
            old(scheduler)@.wf(),
        ensures
            final(self)@.wf(),
            final(scheduler)@.wf(),
            final(scheduler).spec_slot_duration_ms() == old(scheduler).spec_slot_duration_ms(),
            !accepted ==> r == Response::LoginFailed && final(self)@ == old(self)@ && final(scheduler)@ == old(
                scheduler,
            )@,
            accepted && old(scheduler)@.next_id < u64::MAX && !names_of(old(scheduler)@.queue).contains(username@)
                ==> r == Response::LoginSucceeded && final(self)@ == (ClientConnectionView {
                username: Some(username@),
                ..old(self)@
            }) && final(scheduler)@ == old(scheduler)@.registered(username@),
            accepted && (old(scheduler)@.next_id >= u64::MAX || names_of(old(scheduler)@.queue).contains(username@))
                ==> r == Response::RegistrationRefused && final(self)@ == old(self)@ && final(scheduler)@ == old(
                scheduler,
            )@,
    {
        if !accepted {
            return Response::LoginFailed;
        }
        let name = username.clone();
        match scheduler.register_user(name, mailbox) {
            Some(_) => self.login_result(username, true),
            None => Response::RegistrationRefused,
        }
    }

    /// Handles one request against the canvas `fb`. The canvas changes only
    /// on `DONE`, by the queued pixels, and never outside a slot.
    pub fn determine_response(&mut self, request: Request, fb: &mut FrameBuffer) -> (r: Step)
        requires
            old(self)@.wf(),
            old(fb).wf(),
        ensures
            final(self)@.wf(),
            final(fb).wf(),
            final(fb).spec_width() == old(fb).spec_width(),
            final(fb).spec_height() == old(fb).spec_height(),
            !old(self)@.in_slot ==> final(fb)@ == old(fb)@,
            handles_request(old(self)@, *old(fb), *final(fb), final(self)@, request@, r),
    {
        match request {
            Request::Help => Step::Reply(Response::Help),
            Request::Size => Step::Reply(Response::Size { width: self.width, height: self.height }),
            Request::Login { username, password } => {
                if self.current_username.is_some() {
                    Step::Reply(Response::AlreadyLoggedIn)
                } else {
                    Step::CheckCredentials { username, password }
                }
            },
            Request::GetPixel { x, y } => match fb.get(x, y) {
                Some(rgba) => Step::Reply(Response::GetPixel { x, y, rgba }),
                None => Step::Silent,
            },
            Request::SetPixel { x, y, rgba } => {
                if self.current_username.is_none() {
                    Step::Reply(Response::LoginNeeded)
                } else if !self.currently_in_slot {
                    Step::Reply(Response::NotYourSlot)
                } else if self.current_pixel_count >= self.max_pixels_per_slot {
                    Step::Reply(Response::QuotaExceeded { max_pixels_per_slot: self.max_pixels_per_slot })
                } else {
                    self.current_pixel_count = self.current_pixel_count + 1;
                    self.painted.push(PixelUpdate { x, y, rgba });
                    Step::Silent
                }
            },
            Request::Done => {
                let username = match &self.current_username {
                    Some(u) => u.clone(),
                    None => {
                        return Step::Reply(Response::LoginNeeded);
                    },
                };
                let num_pixels = self.painted.len();
                let event = fb.set_multi(username, self.painted.as_slice());
                self.painted.clear();
                self.painting_finished = true;
                self.applied_in_slot = Ghost((self.applied_in_slot@ + num_pixels) as nat);
                assert(self.painted@ =~= seq![]);
                Step::Publish { event, response: Response::Done { num_pixels: num_pixels as u32 } }
            },
        }
    }
}

/// In every reachable session state, the pixels flushed to the canvas in
/// the current slot stay within the slot's quota.
pub proof fn lemma_slot_quota(s: ClientConnectionView)
    requires
        s.wf(),
    ensures
        s.applied_in_slot <= s.max_pixels_per_slot,
        s.applied_in_slot + s.pending.len() <= s.max_pixels_per_slot,
{
}

impl ClientConnection {
    /// Handles one input line: an empty line is skipped, a line that holds
    /// no request, or more than one, gets an error reply, and a request is
    /// handled as `determine_response` says.
    pub fn process_line(&mut self, line: &str, fb: &mut FrameBuffer) -> (r: Step)
        requires
            old(self)@.wf(),
            old(fb).wf(),
        ensures
            final(self)@.wf(),
            final(fb).wf(),
            final(fb).spec_width() == old(fb).spec_width(),
            final(fb).spec_height() == old(fb).spec_height(),
            !old(self)@.in_slot ==> final(fb)@ == old(fb)@,
            line@.len() == 0 ==> r is Silent && final(self)@ == old(self)@ && final(fb)@ == old(fb)@,
            line@.len() > 0 ==> match spec_parse_request(line@) {
                None => r == Step::Reply(Response::InvalidRequest) && final(self)@ == old(self)@
                    && final(fb)@ == old(fb)@,
                Some((q, n)) => if n < line@.len() {
                    r == Step::Reply(Response::TrailingInput) && final(self)@ == old(self)@
                        && final(fb)@ == old(fb)@
                } else {
                    handles_request(old(self)@, *old(fb), *final(fb), final(self)@, q, r)
                },
            },
    {
        if line.unicode_len() == 0 {
            return Step::Silent;
        }
        match parse_request(line) {
            None => Step::Reply(Response::InvalidRequest),
            Some((request, consumed)) => {
                if consumed < line.unicode_len() {
                    Step::Reply(Response::TrailingInput)
                } else {
                    self.determine_response(request, fb)
                }
            },
        }
    }
}

} // verus!
