//! What holds of the applet's state machine over whole sequences.
use vstd::prelude::*;

use crate::applet::{
    bumped_timeout, message_step, outcome_step, preview_choice, AppModel, Message, Outcome,
    Request, Stage,
};
use crate::launch::{
    dashboard_next, dashboard_rank, dashboard_stage_ok, preview_next, DashboardStage,
    PreviewAnswer, PreviewError, PreviewStage, SpawnResult,
};
use crate::config::opt_view;

verus! {

/// A request after which the update is over (no answer is awaited).
pub open spec fn is_final(r: Request) -> bool {
    ||| r is Finish
    ||| r is ForwardSurface
    ||| r is ClosePopup
    ||| r is ShowPopup
}

/// How many outside results a stage may still wait for, at most.
pub open spec fn stage_rank(s: Stage) -> nat {
    match s {
        Stage::Idle => 0,
        Stage::AfterStart => 3,
        Stage::AfterStartFailure => 2,
        Stage::FinalRefresh => 1,
        Stage::AfterStop => 2,
        Stage::SetRunning => 1,
        Stage::SetRunningClearError => 1,
        Stage::AfterDashboard => 1,
        Stage::Push(_) => 2,
        Stage::AwaitDone => 1,
        Stage::PopupRefresh => 2,
        Stage::AwaitPopup => 1,
        Stage::AwaitRandom => 2,
        Stage::AfterPreview => 1,
    }
}

/// A message either ends the update at once, leaving nothing pending, or
/// asks for an outside result with at most three results still to come.
pub proof fn law_message_then_bounded_wait(s: AppModel, m: Message, t: AppModel, r: Request)
    requires
        message_step(s, m, t, r),
    ensures
        is_final(r) ==> t.stage is Idle,
        !is_final(r) ==> 1 <= stage_rank(t.stage) <= 3,
{
}

/// Every outside result either ends the update, leaving nothing pending,
/// or moves to a stage that waits for fewer results: each update ends.
pub proof fn law_outcome_progresses(s: AppModel, o: Outcome, t: AppModel, r: Request)
    requires
        outcome_step(s, o, t, r),
    ensures
        is_final(r) ==> t.stage is Idle,
        !is_final(r) ==> stage_rank(t.stage) < stage_rank(s.stage),
{
}

/// `ToggleAdvanced` twice gives back the state it started from.
pub proof fn law_toggle_advanced_twice(
    s: AppModel,
    t: AppModel,
    r1: Request,
    u: AppModel,
    r2: Request,
)
    requires
        message_step(s, Message::ToggleAdvanced, t, r1),
        message_step(t, Message::ToggleAdvanced, u, r2),
    ensures
        u == (AppModel { stage: Stage::Idle, ..s }),
        t.show_advanced == !s.show_advanced,
{
}

/// A timeout step always lands in 1..=120 minutes.
pub proof fn law_timeout_in_range(cur: u32, delta: i32)
    ensures
        1 <= bumped_timeout(cur, delta) <= 120,
{
}

/// After a timeout message the timeout is in 1..=120 minutes.
pub proof fn law_timeout_message_in_range(s: AppModel, m: Message, t: AppModel, r: Request)
    requires
        m is IncreaseTimeout || m is DecreaseTimeout,
        message_step(s, m, t, r),
    ensures
        1 <= t.local_config@.idle_timeout_mins <= 120,
{
}

/// The previewed saver is the active one, an installed one, or `beams`.
pub proof fn law_preview_choice_known(s: AppModel, random: Option<usize>)
    ensures
        ({
            let c = preview_choice(s, random);
            ||| s.local_config.active_saver matches Some(n) && c == n@
            ||| exists|i: int| 0 <= i < s.screensavers@.len() && c == #[trigger] s.screensavers@[i]@
            ||| c == "beams"@
        }),
{
    let c = preview_choice(s, random);
    if s.local_config.active_saver is None && s.screensavers.len() > 0 {
        match random {
            Some(k) => {
                let i = (k % s.screensavers.len()) as int;
                assert(c == s.screensavers@[i]@);
            },
            None => {
                assert(c == s.screensavers@[0]@);
            },
        }
    }
}

/// Each answer moves a dashboard launch that is not done to a stage with
/// fewer attempts left: a launch ends after at most 42 attempts.
pub proof fn law_dashboard_progresses(s: DashboardStage, ok: bool)
    requires
        dashboard_stage_ok(s),
        !(s is Done),
    ensures
        dashboard_rank(dashboard_next(s, ok)) < dashboard_rank(s),
        dashboard_rank(s) <= 42,
{
}

/// A dashboard launch reports success only right after a spawn succeeded.
pub proof fn law_dashboard_success_needs_spawn(s: DashboardStage, ok: bool)
    requires
        !(s is Done),
        dashboard_next(s, ok) == DashboardStage::Done(true),
    ensures
        ok,
        s is Try || s is Gtk,
{
}

/// How many attempts at most remain from a preview stage.
pub open spec fn preview_rank(s: PreviewStage) -> nat {
    match s {
        PreviewStage::CheckRunning => 7,
        PreviewStage::StartDaemon => 6,
        PreviewStage::CheckAgain => 5,
        PreviewStage::Dbus => 4,
        PreviewStage::Spawn(i) => (3 - i) as nat,
        PreviewStage::Done(_) => 0,
    }
}

/// The answer kind a preview stage waits for.
pub open spec fn answers_stage(s: PreviewStage, a: PreviewAnswer) -> bool {
    match s {
        PreviewStage::CheckRunning => a is Running,
        PreviewStage::StartDaemon => a is Attempted,
        PreviewStage::CheckAgain => a is Running,
        PreviewStage::Dbus => a is Previewed,
        PreviewStage::Spawn(_) => a is Spawned,
        PreviewStage::Done(_) => false,
    }
}

/// Each awaited answer moves a preview start to a stage with fewer
/// attempts left: a preview start ends after at most seven attempts.
pub proof fn law_preview_progresses(s: PreviewStage, a: PreviewAnswer)
    requires
        crate::launch::preview_stage_ok(s),
        answers_stage(s, a),
    ensures
        preview_rank(preview_next(s, a)) < preview_rank(s),
        preview_rank(s) <= 7,
{
}

/// A preview start ends with success only after the daemon took the
/// preview over D-Bus or a helper was started.
pub proof fn law_preview_success_needs_a_viewer(s: PreviewStage, a: PreviewAnswer)
    requires
        !(s is Done),
        preview_next(s, a) == PreviewStage::Done(Ok(())),
    ensures
        (s is Dbus && a == PreviewAnswer::Previewed(true)) || (s is Spawn && a
            == PreviewAnswer::Spawned(SpawnResult::Started)),
{
}

/// A setting the user changed and that is pushed because the daemon runs
/// reaches the daemon with the value the local setting now holds: the
/// idle toggle, the overlay toggle, the scale, the saver choice and a
/// changed timeout.
pub proof fn law_pushed_value_is_the_new_value(
    s: AppModel,
    m: Message,
    t: AppModel,
    r: Request,
    u: AppModel,
    r2: Request,
)
    requires
        message_step(s, m, t, r),
        outcome_step(t, Outcome::Running(true), u, r2),
    ensures
        m matches Message::ToggleIdleEnabled(b) ==> r2 == Request::PushIdleEnabled(b)
            && u.local_config.idle_enabled == b,
        m matches Message::ToggleFpsOverlay(b) ==> r2 == Request::PushFpsOverlay(b)
            && u.show_fps_overlay == b,
        m matches Message::ChangeRenderScale(x) ==> r2 == Request::PushRenderScale(x)
            && u.local_config@.render_scale == Some(x@),
        m is ActiveSaverSelected ==> (r2 matches Request::PushActiveSaver(o) && opt_view(o)
            == u.local_config@.active_saver),
        (m is DecreaseTimeout || m is IncreaseTimeout) && t.stage is Push ==> r2
            == Request::PushTimeout(u.local_config.idle_timeout_mins),
{
}

/// A preview start ends with success exactly when the daemon took the
/// preview over D-Bus or a helper was started.
pub proof fn law_preview_success_iff_viewer(s: PreviewStage, a: PreviewAnswer)
    requires
        !(s is Done),
    ensures
        (preview_next(s, a) == PreviewStage::Done(Ok(()))) <==> ((s is Dbus && a
            == PreviewAnswer::Previewed(true)) || (s is Spawn && a == PreviewAnswer::Spawned(
            SpawnResult::Started,
        ))),
{
}

/// A helper that exits at once ends the preview start with its failure.
pub proof fn law_preview_early_exit_fails(i: usize, st: String)
    ensures
        preview_next(
            PreviewStage::Spawn(i),
            PreviewAnswer::Spawned(SpawnResult::ExitedEarly(st)),
        ) == PreviewStage::Done(Err(PreviewError::ExitedEarly(st))),
{
}

/// A dashboard launch ends with success exactly when a spawn of a terminal
/// or of a desktop entry succeeded.
pub proof fn law_dashboard_success_iff_spawned(s: DashboardStage, ok: bool)
    requires
        !(s is Done),
    ensures
        (dashboard_next(s, ok) == DashboardStage::Done(true)) <==> (ok && (s is Try || s is Gtk)),
{
}

} // verus!
