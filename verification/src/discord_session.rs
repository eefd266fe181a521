//! The decisions of one Discord Rich Presence connection: for each player
//! snapshot, which write (if any) to make, and how the connection state
//! changes with the outcome of that write.
//!
//! The caller owns the IPC client. It asks `begin_sync` what to do,
//! performs the action, and reports whether it succeeded with `complete`.
//! Times are milliseconds of a monotonic clock.
use vstd::prelude::*;

use crate::discord::{
    after_hide, after_publish, guard_step, law_allowed_write_stays_within_limit, planner_step,
    within_window, ActivityPlanner, DecisionView, PlanView, PlannerView, PlaybackAnchor,
    PresenceSnapshot, PresenceView, WriteRateLimiter, DISCORD_MAX_WRITES_PER_WINDOW,
};
use crate::localization::same_text;
use crate::player::PlayerSnapshot;
use crate::text::{trim, trim_str};

verus! {

/// How long to wait before connecting again after a failure.
pub const DISCORD_RETRY_INTERVAL_MILLIS: u64 = 15000;

/// The placeholder that stands for a Discord application not yet chosen.
pub const PLACEHOLDER_CLIENT_ID: &'static str = "YOUR_DISCORD_APPLICATION_ID";

/// Whether `client_id` names a Discord application: it is neither blank
/// nor the placeholder.
pub fn client_id_configured(client_id: &str) -> (r: bool)
    ensures
        r == (trim(client_id@).len() > 0 && client_id@ != PLACEHOLDER_CLIENT_ID@),
{
    let trimmed = trim_str(client_id);
    trimmed.as_str().unicode_len() > 0 && !same_text(client_id, PLACEHOLDER_CLIENT_ID)
}

/// What the caller must do with the Discord connection.
pub enum SessionAction {
    /// Nothing.
    Idle,
    /// Connect the client; the attempt started at `attempted_at`.
    Connect { attempted_at: u64 },
    /// Write `presence` as the activity; the write was allowed at
    /// `observed_at`.
    Publish { presence: PresenceSnapshot, observed_at: u64 },
    /// Clear the activity; the write was allowed at `observed_at`.
    Clear { observed_at: u64 },
}

/// The values of an action.
pub enum ActionView {
    Idle,
    Connect(u64),
    Publish(PresenceView, u64),
    Clear(u64),
}

impl View for SessionAction {
    type V = ActionView;

    open spec fn view(&self) -> ActionView {
        match self {
            SessionAction::Idle => ActionView::Idle,
            SessionAction::Connect { attempted_at } => ActionView::Connect(*attempted_at),
            SessionAction::Publish { presence, observed_at } => ActionView::Publish(
                presence@,
                *observed_at,
            ),
            SessionAction::Clear { observed_at } => ActionView::Clear(*observed_at),
        }
    }
}

/// What to do with the connection when the integration stops.
#[derive(Debug, Clone, Copy, PartialEq, Eq, Structural)]
pub enum ShutdownPlan {
    /// Not connected: nothing to do.
    Nothing,
    /// Close the connection.
    Close,
    /// Clear the shown activity, then close the connection.
    ClearAndClose,
}

/// The state of one Discord connection.
pub struct PresenceSession {
    connected: bool,
    next_retry_at: u64,
    planner: ActivityPlanner,
    limiter: WriteRateLimiter,
}

/// The values of a session.
pub struct SessionView {
    pub connected: bool,
    pub next_retry_at: u64,
    pub planner: PlannerView,
    pub writes: Seq<u64>,
}

impl View for PresenceSession {
    type V = SessionView;

    closed spec fn view(&self) -> SessionView {
        SessionView {
            connected: self.connected,
            next_retry_at: self.next_retry_at,
            planner: self.planner@,
            writes: self.limiter.writes(),
        }
    }
}

/// `now` plus the retry interval, clamped to the range of `u64`.
pub open spec fn retry_time(now: u64) -> u64 {
    if now + DISCORD_RETRY_INTERVAL_MILLIS > u64::MAX {
        u64::MAX
    } else {
        (now + DISCORD_RETRY_INTERVAL_MILLIS) as u64
    }
}

/// The session's next state and action for a snapshot observed at `now`.
pub open spec fn sync_step(
    v: SessionView,
    s: PlayerSnapshot,
    anchor: Option<PlaybackAnchor>,
    now: u64,
) -> (SessionView, ActionView) {
    let (p, plan) = planner_step(v.planner, s, anchor);
    let planned = SessionView { planner: p, ..v };
    let recent = within_window(v.writes, now);
    let pruned = SessionView { writes: recent, ..planned };
    match plan {
        PlanView::Publish(d) => if v.connected {
            if recent.len() < DISCORD_MAX_WRITES_PER_WINDOW - 1 {
                (pruned, ActionView::Publish(d, now))
            } else {
                (pruned, ActionView::Idle)
            }
        } else if now < v.next_retry_at {
            (planned, ActionView::Idle)
        } else {
            (planned, ActionView::Connect(now))
        },
        PlanView::Clear => if v.connected && v.planner.visible {
            if recent.len() < DISCORD_MAX_WRITES_PER_WINDOW {
                (pruned, ActionView::Clear(now))
            } else {
                (pruned, ActionView::Idle)
            }
        } else {
            (planned, ActionView::Idle)
        },
        PlanView::Hold | PlanView::Ignore => (planned, ActionView::Idle),
    }
}

/// The session after the connection failed at `now`: disconnected, nothing
/// shown, and no new attempt before the retry interval has passed.
pub open spec fn connection_lost(v: SessionView, now: u64) -> SessionView {
    SessionView {
        connected: false,
        next_retry_at: retry_time(now),
        planner: after_hide(v.planner),
        ..v
    }
}

/// The session after `action` ended (`succeeded` or not) at `now`, and
/// whether the caller must drop its client and start a new one.
pub open spec fn complete_step(v: SessionView, action: ActionView, succeeded: bool, now: u64) -> (
    SessionView,
    bool,
) {
    match action {
        ActionView::Idle => (v, false),
        ActionView::Connect(attempted_at) => if succeeded {
            (SessionView { connected: true, planner: after_hide(v.planner), ..v }, false)
        } else {
            (SessionView { next_retry_at: retry_time(attempted_at), ..v }, false)
        },
        ActionView::Publish(d, observed_at) => if succeeded {
            (
                SessionView {
                    planner: after_publish(v.planner, d),
                    writes: v.writes.push(observed_at),
                    ..v
                },
                false,
            )
        } else {
            (connection_lost(v, now), true)
        },
        ActionView::Clear(observed_at) => if succeeded {
            (
                SessionView {
                    planner: after_hide(v.planner),
                    writes: v.writes.push(observed_at),
                    ..v
                },
                false,
            )
        } else {
            (connection_lost(v, now), true)
        },
    }
}

/// The plan for stopping the integration.
pub open spec fn shutdown_step(v: SessionView) -> (SessionView, ShutdownPlan) {
    if !v.connected {
        (v, ShutdownPlan::Nothing)
    } else {
        let stopped = SessionView { connected: false, planner: after_hide(v.planner), ..v };
        if v.planner.visible {
            (stopped, ShutdownPlan::ClearAndClose)
        } else {
            (stopped, ShutdownPlan::Close)
        }
    }
}

fn retry_after(now: u64) -> (r: u64)
    ensures
        r == retry_time(now),
{
    now.saturating_add(DISCORD_RETRY_INTERVAL_MILLIS)
}

impl PresenceSession {
    /// A disconnected session that may connect at once, with nothing shown
    /// and no recorded writes.
    pub fn new(now: u64) -> (r: Self)
        ensures
            !r@.connected,
            r@.next_retry_at == now,
            !r@.planner.visible,
            r@.planner.last_published is None,
            r@.planner.guard.last_coherent is None,
            r@.planner.guard.pending_presence is None,
            r@.planner.guard.pending_pause is None,
            r@.writes.len() == 0,
    {
        PresenceSession {
            connected: false,
            next_retry_at: now,
            planner: ActivityPlanner::default(),
            limiter: WriteRateLimiter::default(),
        }
    }

    /// Whether the session believes it is connected.
    pub fn is_connected(&self) -> (r: bool)
        ensures
            r == self@.connected,
    {
        self.connected
    }

    /// Evaluates a snapshot (with the anchor computed from its timing) at
    /// `now` and says which write to make.
    pub fn begin_sync(
        &mut self,
        snapshot: &PlayerSnapshot,
        anchor: Option<PlaybackAnchor>,
        now: u64,
    ) -> (r: SessionAction)
        ensures
            (final(self)@, r@) == sync_step(old(self)@, *snapshot, anchor, now),
    {
        let ghost before = self@;
        let plan = self.planner.evaluate(snapshot, anchor);
        match plan {
            crate::discord::ActivityPlan::Publish(desired) => {
                if self.connected {
                    if self.limiter.allows_activity_update(now) {
                        SessionAction::Publish { presence: desired, observed_at: now }
                    } else {
                        SessionAction::Idle
                    }
                } else if now < self.next_retry_at {
                    SessionAction::Idle
                } else {
                    SessionAction::Connect { attempted_at: now }
                }
            },
            crate::discord::ActivityPlan::Clear => {
                proof {
                    crate::discord::law_clear_only_when_visible(before.planner, *snapshot, anchor);
                }
                if self.connected && self.planner.is_visible() {
                    if self.limiter.allows_clear(now) {
                        SessionAction::Clear { observed_at: now }
                    } else {
                        SessionAction::Idle
                    }
                } else {
                    SessionAction::Idle
                }
            },
            _ => SessionAction::Idle,
        }
    }

    fn lose_connection(&mut self, now: u64)
        ensures
            final(self)@ == connection_lost(old(self)@, now),
    {
        self.connected = false;
        self.planner.mark_hidden();
        self.next_retry_at = retry_after(now);
    }

    /// Applies the outcome of `action`, which ended at `now`. Returns
    /// whether the caller must drop its client and start a new one.
    pub fn complete(&mut self, action: SessionAction, succeeded: bool, now: u64) -> (reset: bool)
        ensures
            (final(self)@, reset) == complete_step(old(self)@, action@, succeeded, now),
    {
        match action {
            SessionAction::Idle => false,
            SessionAction::Connect { attempted_at } => {
                if succeeded {
                    self.connected = true;
                    self.planner.mark_hidden();
                } else {
                    self.next_retry_at = retry_after(attempted_at);
                }
                false
            },
            SessionAction::Publish { presence, observed_at } => {
                if succeeded {
                    self.limiter.record(observed_at);
                    self.planner.mark_published(presence);
                    false
                } else {
                    self.lose_connection(now);
                    true
                }
            },
            SessionAction::Clear { observed_at } => {
                if succeeded {
                    self.planner.mark_hidden();
                    self.limiter.record(observed_at);
                    false
                } else {
                    self.lose_connection(now);
                    true
                }
            },
        }
    }

    /// Stops the session and says what to do with the connection.
    pub fn shutdown(&mut self) -> (r: ShutdownPlan)
        ensures
            (final(self)@, r) == shutdown_step(old(self)@),
    {
        if !self.connected {
            return ShutdownPlan::Nothing;
        }
        let plan = if self.planner.is_visible() {
            ShutdownPlan::ClearAndClose
        } else {
            ShutdownPlan::Close
        };
        self.connected = false;
        self.planner.mark_hidden();
        plan
    }
}

/// Every write that a session asks for, once recorded, keeps the writes of
/// the window within Discord's limit.
pub proof fn law_session_writes_stay_within_limit(
    v: SessionView,
    s: PlayerSnapshot,
    anchor: Option<PlaybackAnchor>,
    now: u64,
)
    requires
        !(sync_step(v, s, anchor, now).1 is Idle),
        !(sync_step(v, s, anchor, now).1 is Connect),
    ensures
        within_window(
            complete_step(sync_step(v, s, anchor, now).0, sync_step(v, s, anchor, now).1, true, now).0.writes,
            now,
        ).len() <= DISCORD_MAX_WRITES_PER_WINDOW,
{
    let plan = planner_step(v.planner, s, anchor).1;
    if plan is Publish {
        law_allowed_write_stays_within_limit(v.writes, now, (DISCORD_MAX_WRITES_PER_WINDOW - 1) as usize);
    } else {
        law_allowed_write_stays_within_limit(v.writes, now, DISCORD_MAX_WRITES_PER_WINDOW);
    }
}

/// A session writes to Discord only while it is connected.
pub proof fn law_writes_only_when_connected(
    v: SessionView,
    s: PlayerSnapshot,
    anchor: Option<PlaybackAnchor>,
    now: u64,
)
    requires
        !(sync_step(v, s, anchor, now).1 is Idle),
        !(sync_step(v, s, anchor, now).1 is Connect),
    ensures
        v.connected,
{
}

/// A disconnected session makes no attempt and no write before its retry
/// time; after a failed write the retry time is the retry interval later.
pub proof fn law_no_attempt_before_retry(
    v: SessionView,
    s: PlayerSnapshot,
    anchor: Option<PlaybackAnchor>,
    now: u64,
    later: u64,
    action: ActionView,
)
    requires
        action is Publish || action is Clear,
        later < retry_time(now),
    ensures
        complete_step(v, action, false, now).1,
        sync_step(complete_step(v, action, false, now).0, s, anchor, later).1 is Idle,
{
}

/// After a connection is made nothing is believed shown, so the presence
/// that the guard accepts next is published again.
pub proof fn law_reconnect_republishes(
    v: SessionView,
    attempted_at: u64,
    now: u64,
    s: PlayerSnapshot,
    anchor: Option<PlaybackAnchor>,
    d: PresenceView,
)
    requires
        guard_step(v.planner.guard, s, anchor).1 == DecisionView::Ready(d),
    ensures
        planner_step(
            complete_step(v, ActionView::Connect(attempted_at), true, now).0.planner,
            s,
            anchor,
        ).1 == PlanView::Publish(d),
{
}

} // verus!
