//! The applet's state and its message handler, as a state machine: each
//! message or outside result moves the state and names the next outside
//! step (query or control the daemon, write the config, open or close the
//! popup) for the caller to perform and answer.
use vstd::prelude::*;

use crate::config::{Config, Settings, ThemeConfig};
use crate::i18n::{localized, message_text};
use crate::text::same_text;

verus! {

/// Messages emitted by the application and its widgets.
pub enum Message {
    TogglePopup,
    /// A popup window closed (its id).
    PopupClosed(u64),
    /// Surface and tooltip plumbing of the panel (forwarded as is).
    Surface,
    SubscriptionChannel,
    Refresh,
    UpdateConfig(Config),
    ToggleIdleEnabled(bool),
    ActiveSaverSelected(String),
    ToggleDaemon(bool),
    ToggleFpsOverlay(bool),
    ToggleAdvanced,
    DecreaseTimeout,
    IncreaseTimeout,
    MiddleClick,
    TriggerPreview,
    OpenDashboard,
    /// A new render scale, as `f32` text.
    ChangeRenderScale(String),
}

/// A setting whose change goes to the daemon when it runs, else to disk.
pub enum Setting {
    IdleEnabled(bool),
    FpsOverlay(bool),
    ActiveSaver,
    Timeout(u32),
    RenderScale(String),
}

/// The outside result the state machine waits for.
pub enum Stage {
    /// Nothing pending.
    Idle,
    /// Waiting for the daemon service to start.
    AfterStart,
    /// Start failed; waiting to learn whether the daemon runs.
    AfterStartFailure,
    /// Waiting for the daemon state refresh that ends a start.
    FinalRefresh,
    /// Waiting for the daemon service to stop.
    AfterStop,
    /// Waiting to learn whether the daemon runs.
    SetRunning,
    /// Waiting to learn whether the daemon runs, then clearing the error.
    SetRunningClearError,
    /// Waiting for the dashboard to open.
    AfterDashboard,
    /// Waiting to learn whether the daemon runs, to push a setting.
    Push(Setting),
    /// Waiting for the last step to finish.
    AwaitDone,
    /// Waiting for the refresh that precedes opening the popup.
    PopupRefresh,
    /// Waiting for the id of a new popup (none without a main window).
    AwaitPopup,
    /// Waiting for a random number to pick a saver to preview.
    AwaitRandom,
    /// Waiting for a preview to start.
    AfterPreview,
}

/// What the caller does next.
pub enum Request {
    /// Nothing more; the update yields no task.
    Finish,
    /// Forward the surface action of the message; nothing more.
    ForwardSurface,
    /// Destroy this popup; nothing more.
    ClosePopup(u64),
    /// Open the popup with this id; nothing more.
    ShowPopup(u64),
    /// Ask whether the daemon runs; answer `Outcome::Running`.
    QueryRunning,
    /// Start and enable the daemon service; answer `Outcome::Succeeded`.
    StartService,
    /// Stop the daemon service; answer `Outcome::Succeeded`.
    StopService,
    /// Refresh the daemon state; answer `Outcome::Finished`.
    RefreshDaemonState,
    /// Tell the daemon; answer `Outcome::Finished` (its result is not used).
    PushIdleEnabled(bool),
    PushFpsOverlay(bool),
    PushActiveSaver(Option<String>),
    PushTimeout(u32),
    PushRenderScale(String),
    /// Write this owned key of the local config to disk; answer `Outcome::Finished`.
    SaveField(&'static str),
    /// Open the dashboard in a terminal; answer `Outcome::Succeeded`.
    OpenDashboard,
    /// Create a popup if there is a main window; answer `Outcome::Popup`.
    NewPopup,
    /// Draw a random number; answer `Outcome::Random`.
    PickRandom,
    /// Preview this saver; answer `Outcome::Succeeded`.
    Preview(String),
}

/// An outside result handed back to the state machine.
pub enum Outcome {
    Running(bool),
    Succeeded(bool),
    Finished,
    Popup(Option<u64>),
    Random(usize),
}

/// The applet's state.
pub struct AppModel {
    pub config: Config,
    pub local_config: ThemeConfig,
    pub screensavers: Vec<String>,
    pub daemon_running: bool,
    pub show_fps_overlay: bool,
    pub show_advanced: bool,
    pub last_error: Option<String>,
    pub popup: Option<u64>,
    pub stage: Stage,
}

pub open spec fn error_view(s: AppModel) -> Option<Seq<char>> {
    match s.last_error {
        Some(e) => Some(e@),
        None => None,
    }
}

/// `t` shows the localized message `id` as its error.
pub open spec fn shows_error(t: AppModel, id: Seq<char>) -> bool {
    error_view(t) == Some(message_text(id, Seq::empty()))
}

/// The saver a preview shows: the active one; else `beams` when none is
/// installed; else the installed one at `k` modulo their number when a
/// random number `k` is given, the first one otherwise.
pub open spec fn preview_choice(s: AppModel, random: Option<usize>) -> Seq<char> {
    match s.local_config.active_saver {
        Some(n) => n@,
        None => if s.screensavers.len() == 0 {
            "beams"@
        } else {
            match random {
                Some(k) => s.screensavers[(k % s.screensavers.len()) as int]@,
                None => s.screensavers[0]@,
            }
        },
    }
}

/// The timeout after a step of `delta` minutes from `cur`, kept in 1..=120.
pub open spec fn bumped_timeout(cur: u32, delta: i32) -> u32 {
    let x = (cur as i32) + delta;
    if x < 1 {
        1
    } else if x > 120 {
        120
    } else {
        x as u32
    }
}

/// `delta` can be added to the timeout read as `i32` without overflow.
pub open spec fn bump_fits(cur: u32, delta: i32) -> bool {
    i32::MIN <= (cur as i32) + delta <= i32::MAX
}

/// A timeout step: nothing when the clamped value is unchanged, else the
/// new value is set and pushed.
pub open spec fn bump_step(s: AppModel, delta: i32, t: AppModel, r: Request) -> bool {
    let next = bumped_timeout(s.local_config.idle_timeout_mins, delta);
    if next == s.local_config.idle_timeout_mins {
        t == AppModel { stage: Stage::Idle, ..s } && r == Request::Finish
    } else {
        &&& t.local_config@ == Settings { idle_timeout_mins: next, ..s.local_config@ }
        &&& t == AppModel {
            local_config: t.local_config,
            stage: Stage::Push(Setting::Timeout(next)),
            ..s
        }
        &&& r == Request::QueryRunning
    }
}

/// A preview request: a random number is drawn first when one is needed.
pub open spec fn preview_step(s: AppModel, random: bool, t: AppModel, r: Request) -> bool {
    if random && s.local_config.active_saver is None && s.screensavers.len() > 0 {
        t == AppModel { stage: Stage::AwaitRandom, ..s } && r == Request::PickRandom
    } else {
        &&& t == AppModel { stage: Stage::AfterPreview, ..s }
        &&& r matches Request::Preview(n) && n@ == preview_choice(s, None)
    }
}

/// The state and request after message `m` in state `s`.
pub open spec fn message_step(s: AppModel, m: Message, t: AppModel, r: Request) -> bool {
    match m {
        Message::TogglePopup => match s.popup {
            Some(p) => t == AppModel { popup: None, stage: Stage::Idle, ..s } && r
                == Request::ClosePopup(p),
            None => t == AppModel { stage: Stage::PopupRefresh, ..s } && r
                == Request::RefreshDaemonState,
        },
        Message::PopupClosed(id) => {
            &&& t == AppModel {
                popup: if s.popup == Some(id) {
                    None
                } else {
                    s.popup
                },
                stage: Stage::Idle,
                ..s
            }
            &&& r == Request::Finish
        },
        Message::Surface => t == AppModel { stage: Stage::Idle, ..s } && r
            == Request::ForwardSurface,
        Message::SubscriptionChannel => t == AppModel { stage: Stage::Idle, ..s } && r
            == Request::Finish,
        Message::Refresh => t == AppModel { stage: Stage::AwaitDone, ..s } && r
            == Request::RefreshDaemonState,
        Message::UpdateConfig(c) => t == AppModel { config: c, stage: Stage::Idle, ..s } && r
            == Request::Finish,
        Message::ToggleIdleEnabled(b) => {
            &&& t.local_config@ == Settings { idle_enabled: b, ..s.local_config@ }
            &&& t == AppModel {
                local_config: t.local_config,
                stage: Stage::Push(Setting::IdleEnabled(b)),
                ..s
            }
            &&& r == Request::QueryRunning
        },
        Message::ActiveSaverSelected(name) => {
            &&& t.local_config@ == Settings {
                active_saver: if name@ == "Random"@ {
                    None
                } else {
                    Some(name@)
                },
                ..s.local_config@
            }
            &&& t == AppModel {
                local_config: t.local_config,
                stage: Stage::Push(Setting::ActiveSaver),
                ..s
            }
            &&& r == Request::QueryRunning
        },
        Message::ToggleDaemon(on) => if on {
            t == AppModel { stage: Stage::AfterStart, ..s } && r == Request::StartService
        } else {
            t == AppModel { stage: Stage::AfterStop, ..s } && r == Request::StopService
        },
        Message::ToggleFpsOverlay(b) => {
            &&& t == AppModel {
                show_fps_overlay: b,
                stage: Stage::Push(Setting::FpsOverlay(b)),
                ..s
            }
            &&& r == Request::QueryRunning
        },
        Message::ToggleAdvanced => t == AppModel {
            show_advanced: !s.show_advanced,
            stage: Stage::Idle,
            ..s
        } && r == Request::Finish,
        Message::DecreaseTimeout => bump_step(s, -5i32, t, r),
        Message::IncreaseTimeout => bump_step(s, 5i32, t, r),
        Message::MiddleClick => preview_step(s, true, t, r),
        Message::TriggerPreview => preview_step(s, false, t, r),
        Message::OpenDashboard => t == AppModel { stage: Stage::AfterDashboard, ..s } && r
            == Request::OpenDashboard,
        Message::ChangeRenderScale(text) => {
            &&& t.local_config@ == Settings { render_scale: Some(text@), ..s.local_config@ }
            &&& t == AppModel {
                local_config: t.local_config,
                stage: Stage::Push(Setting::RenderScale(text)),
                ..s
            }
            &&& r == Request::QueryRunning
        },
    }
}

/// The key of the config field a setting is saved under.
pub open spec fn setting_key(g: Setting) -> Seq<char> {
    match g {
        Setting::IdleEnabled(_) => "idle_enabled"@,
        Setting::FpsOverlay(_) => "show_fps_overlay"@,
        Setting::ActiveSaver => "active_saver"@,
        Setting::Timeout(_) => "idle_timeout_mins"@,
        Setting::RenderScale(_) => "render_scale"@,
    }
}

/// The daemon request that pushes a setting, given the state.
pub open spec fn push_request(s: AppModel, g: Setting, r: Request) -> bool {
    match g {
        Setting::IdleEnabled(b) => r == Request::PushIdleEnabled(b),
        Setting::FpsOverlay(b) => r == Request::PushFpsOverlay(b),
        Setting::ActiveSaver => r matches Request::PushActiveSaver(o) && crate::config::opt_view(
            o,
        ) == s.local_config@.active_saver,
        Setting::Timeout(n) => r == Request::PushTimeout(n),
        Setting::RenderScale(x) => r == Request::PushRenderScale(x),
    }
}

/// The state and request after outside result `o` in state `s`. A result
/// the stage does not wait for ends the sequence.
pub open spec fn outcome_step(s: AppModel, o: Outcome, t: AppModel, r: Request) -> bool {
    match (s.stage, o) {
        (Stage::AfterStart, Outcome::Succeeded(true)) => {
            &&& t == AppModel {
                daemon_running: true,
                last_error: None,
                stage: Stage::FinalRefresh,
                ..s
            }
            &&& r == Request::RefreshDaemonState
        },
        (Stage::AfterStart, Outcome::Succeeded(false)) => {
            &&& shows_error(t, "error-start"@)
            &&& t == AppModel {
                last_error: t.last_error,
                stage: Stage::AfterStartFailure,
                ..s
            }
            &&& r == Request::QueryRunning
        },
        (Stage::AfterStartFailure, Outcome::Running(b)) => {
            &&& t == AppModel { daemon_running: b, stage: Stage::FinalRefresh, ..s }
            &&& r == Request::RefreshDaemonState
        },
        (Stage::FinalRefresh, Outcome::Finished) => t == AppModel { stage: Stage::Idle, ..s } && r
            == Request::Finish,
        (Stage::AfterStop, Outcome::Succeeded(false)) => {
            &&& shows_error(t, "error-stop"@)
            &&& t == AppModel { last_error: t.last_error, stage: Stage::SetRunning, ..s }
            &&& r == Request::QueryRunning
        },
        (Stage::AfterStop, Outcome::Succeeded(true)) => {
            &&& t == AppModel { stage: Stage::SetRunningClearError, ..s }
            &&& r == Request::QueryRunning
        },
        (Stage::SetRunning, Outcome::Running(b)) => {
            &&& t == AppModel { daemon_running: b, stage: Stage::Idle, ..s }
            &&& r == Request::Finish
        },
        (Stage::SetRunningClearError, Outcome::Running(b)) => {
            &&& t == AppModel { daemon_running: b, last_error: None, stage: Stage::Idle, ..s }
            &&& r == Request::Finish
        },
        (Stage::AfterDashboard, Outcome::Succeeded(true)) => match s.popup {
            Some(p) => t == AppModel {
                last_error: None,
                popup: None,
                stage: Stage::Idle,
                ..s
            } && r == Request::ClosePopup(p),
            None => t == AppModel { last_error: None, stage: Stage::Idle, ..s } && r
                == Request::Finish,
        },
        (Stage::AfterDashboard, Outcome::Succeeded(false)) => {
            &&& shows_error(t, "error-tui"@)
            &&& t == AppModel { last_error: t.last_error, stage: Stage::Idle, ..s }
            &&& r == Request::Finish
        },
        (Stage::Push(g), Outcome::Running(true)) => {
            &&& t == AppModel { stage: Stage::AwaitDone, ..s }
            &&& push_request(s, g, r)
        },
        (Stage::Push(g), Outcome::Running(false)) => {
            &&& match g {
                Setting::FpsOverlay(b) => t.local_config@ == Settings {
                    show_fps_overlay: b,
                    ..s.local_config@
                },
                _ => t.local_config == s.local_config,
            }
            &&& t == AppModel { local_config: t.local_config, stage: Stage::AwaitDone, ..s }
            &&& r matches Request::SaveField(k) && k@ == setting_key(g)
        },
        (Stage::AwaitDone, Outcome::Finished) => t == AppModel { stage: Stage::Idle, ..s } && r
            == Request::Finish,
        (Stage::PopupRefresh, Outcome::Finished) => {
            &&& t == AppModel { last_error: None, stage: Stage::AwaitPopup, ..s }
            &&& r == Request::NewPopup
        },
        (Stage::AwaitPopup, Outcome::Popup(Some(id))) => {
            &&& t == AppModel { popup: Some(id), stage: Stage::Idle, ..s }
            &&& r == Request::ShowPopup(id)
        },
        (Stage::AwaitPopup, Outcome::Popup(None)) => t == AppModel { stage: Stage::Idle, ..s }
            && r == Request::Finish,
        (Stage::AwaitRandom, Outcome::Random(k)) => {
            &&& t == AppModel { stage: Stage::AfterPreview, ..s }
            &&& r matches Request::Preview(n) && n@ == preview_choice(s, Some(k))
        },
        (Stage::AfterPreview, Outcome::Succeeded(ok)) => {
            &&& if ok {
                t.last_error is None
            } else {
                shows_error(t, "error-preview"@)
            }
            &&& t == AppModel { last_error: t.last_error, stage: Stage::Idle, ..s }
            &&& r == Request::Finish
        },
        _ => t == AppModel { stage: Stage::Idle, ..s } && r == Request::Finish,
    }
}

impl Default for AppModel {
    /// Default config, default (empty) settings, no savers, idle state.
    fn default() -> (r: Self)
        ensures
            r.config.demo@ == Seq::<char>::empty(),
            r.local_config@ == crate::config::empty_settings(),
            r.screensavers@.len() == 0,
            !r.daemon_running,
            !r.show_fps_overlay,
            !r.show_advanced,
            r.last_error is None,
            r.popup is None,
            r.stage is Idle,
    {
        AppModel::new(Config::default(), ThemeConfig::default(), Vec::new())
    }
}

impl AppModel {
    /// A fresh state: daemon not known to run, popup closed, no error.
    pub fn new(config: Config, local_config: ThemeConfig, screensavers: Vec<String>) -> (r: Self)
        ensures
            r == (AppModel {
                config: config,
                local_config: local_config,
                screensavers: screensavers,
                daemon_running: false,
                show_fps_overlay: false,
                show_advanced: false,
                last_error: None,
                popup: None,
                stage: Stage::Idle,
            }),
    {
        AppModel {
            config,
            local_config,
            screensavers,
            daemon_running: false,
            show_fps_overlay: false,
            show_advanced: false,
            last_error: None,
            popup: None,
            stage: Stage::Idle,
        }
    }

    /// Whether the daemon state is refreshed on a timer: while the popup
    /// is open.
    pub fn refreshes_periodically(&self) -> (r: bool)
        ensures
            r == self.popup is Some,
    {
        self.popup.is_some()
    }

    /// Choose which saver to preview: the configured active one, else a
    /// random (from `seed`) or the first installed one, else `beams`.
    pub fn pick_preview_saver(&self, random_if_unset: bool, seed: usize) -> (r: String)
        ensures
            r@ == preview_choice(
                *self,
                if random_if_unset {
                    Some(seed)
                } else {
                    None
                },
            ),
    {
        match &self.local_config.active_saver {
            Some(name) => {
                return name.clone();
            },
            None => {},
        }
        if self.screensavers.len() == 0 {
            return "beams".to_owned();
        }
        if random_if_unset {
            let idx = seed % self.screensavers.len();
            self.screensavers[idx].clone()
        } else {
            self.screensavers[0].clone()
        }
    }

    /// Step the idle timeout by `delta` minutes, kept in 1..=120.
    pub fn bump_timeout(&mut self, delta: i32) -> (r: Request)
        requires
            bump_fits(old(self).local_config.idle_timeout_mins, delta),
        ensures
            bump_step(*old(self), delta, *final(self), r),
    {
        let cur = self.local_config.idle_timeout_mins as i32;
        let x = cur + delta;
        let next: u32 = if x < 1 {
            1
        } else if x > 120 {
            120
        } else {
            x as u32
        };
        if next == self.local_config.idle_timeout_mins {
            self.stage = Stage::Idle;
            return Request::Finish;
        }
        self.local_config.idle_timeout_mins = next;
        self.stage = Stage::Push(Setting::Timeout(next));
        Request::QueryRunning
    }

    fn start_preview(&mut self, random: bool) -> (r: Request)
        ensures
            preview_step(*old(self), random, *final(self), r),
    {
        if random && self.local_config.active_saver.is_none() && self.screensavers.len() > 0 {
            self.stage = Stage::AwaitRandom;
            return Request::PickRandom;
        }
        let saver = self.pick_preview_saver(false, 0);
        self.stage = Stage::AfterPreview;
        Request::Preview(saver)
    }


    /// Hand back an outside result; returns the next outside step.
    pub fn resume(&mut self, outcome: Outcome) -> (r: Request)
        ensures
            outcome_step(*old(self), outcome, *final(self), r),
    {
        let mut stage = Stage::Idle;
        std::mem::swap(&mut stage, &mut self.stage);
        match stage {
            Stage::AfterStart => match outcome {
                Outcome::Succeeded(true) => {
                    self.daemon_running = true;
                    self.last_error = None;
                    self.stage = Stage::FinalRefresh;
                    Request::RefreshDaemonState
                },
                Outcome::Succeeded(false) => {
                    self.last_error = Some(localized("error-start"));
                    self.stage = Stage::AfterStartFailure;
                    Request::QueryRunning
                },
                _ => Request::Finish,
            },
            Stage::AfterStartFailure => match outcome {
                Outcome::Running(b) => {
                    self.daemon_running = b;
                    self.stage = Stage::FinalRefresh;
                    Request::RefreshDaemonState
                },
                _ => Request::Finish,
            },
            Stage::FinalRefresh => Request::Finish,
            Stage::AfterStop => match outcome {
                Outcome::Succeeded(false) => {
                    self.last_error = Some(localized("error-stop"));
                    self.stage = Stage::SetRunning;
                    Request::QueryRunning
                },
                Outcome::Succeeded(true) => {
                    self.stage = Stage::SetRunningClearError;
                    Request::QueryRunning
                },
                _ => Request::Finish,
            },
            Stage::SetRunning => match outcome {
                Outcome::Running(b) => {
                    self.daemon_running = b;
                    Request::Finish
                },
                _ => Request::Finish,
            },
            Stage::SetRunningClearError => match outcome {
                Outcome::Running(b) => {
                    self.daemon_running = b;
                    self.last_error = None;
                    Request::Finish
                },
                _ => Request::Finish,
            },
            Stage::AfterDashboard => match outcome {
                Outcome::Succeeded(true) => {
                    self.last_error = None;
                    match self.popup {
                        Some(p) => {
                            self.popup = None;
                            Request::ClosePopup(p)
                        },
                        None => Request::Finish,
                    }
                },
                Outcome::Succeeded(false) => {
                    self.last_error = Some(localized("error-tui"));
                    Request::Finish
                },
                _ => Request::Finish,
            },
            Stage::Push(g) => match outcome {
                Outcome::Running(true) => {
                    self.stage = Stage::AwaitDone;
                    match g {
                        Setting::IdleEnabled(b) => Request::PushIdleEnabled(b),
                        Setting::FpsOverlay(b) => Request::PushFpsOverlay(b),
                        Setting::ActiveSaver => Request::PushActiveSaver(
                            self.local_config.active_saver.clone(),
                        ),
                        Setting::Timeout(n) => Request::PushTimeout(n),
                        Setting::RenderScale(x) => Request::PushRenderScale(x),
                    }
                },
                Outcome::Running(false) => {
                    self.stage = Stage::AwaitDone;
                    match g {
                        Setting::IdleEnabled(_) => Request::SaveField("idle_enabled"),
                        Setting::FpsOverlay(b) => {
                            self.local_config.show_fps_overlay = b;
                            Request::SaveField("show_fps_overlay")
                        },
                        Setting::ActiveSaver => Request::SaveField("active_saver"),
                        Setting::Timeout(_) => Request::SaveField("idle_timeout_mins"),
                        Setting::RenderScale(_) => Request::SaveField("render_scale"),
                    }
                },
                _ => Request::Finish,
            },
            Stage::AwaitDone => Request::Finish,
            Stage::PopupRefresh => match outcome {
                Outcome::Finished => {
                    self.last_error = None;
                    self.stage = Stage::AwaitPopup;
                    Request::NewPopup
                },
                _ => Request::Finish,
            },
            Stage::AwaitPopup => match outcome {
                Outcome::Popup(Some(id)) => {
                    self.popup = Some(id);
                    Request::ShowPopup(id)
                },
                _ => Request::Finish,
            },
            Stage::AwaitRandom => match outcome {
                Outcome::Random(k) => {
                    let saver = self.pick_preview_saver(true, k);
                    self.stage = Stage::AfterPreview;
                    Request::Preview(saver)
                },
                _ => Request::Finish,
            },
            Stage::AfterPreview => match outcome {
                Outcome::Succeeded(ok) => {
                    if ok {
                        self.last_error = None;
                    } else {
                        self.last_error = Some(localized("error-preview"));
                    }
                    Request::Finish
                },
                _ => Request::Finish,
            },
            Stage::Idle => Request::Finish,
        }
    }

    /// Handle a message; returns the first outside step.
    pub fn handle_update(&mut self, message: Message) -> (r: Request)
        requires
            message is DecreaseTimeout ==> bump_fits(old(self).local_config.idle_timeout_mins, -5i32),
            message is IncreaseTimeout ==> bump_fits(old(self).local_config.idle_timeout_mins, 5i32),
        ensures
            message_step(*old(self), message, *final(self), r),
    {
        match message {
            Message::TogglePopup => {
                match self.popup {
                    Some(p) => {
                        self.popup = None;
                        self.stage = Stage::Idle;
                        Request::ClosePopup(p)
                    },
                    None => {
                        self.stage = Stage::PopupRefresh;
                        Request::RefreshDaemonState
                    },
                }
            },
            Message::PopupClosed(id) => {
                match self.popup {
                    Some(p) => {
                        if p == id {
                            self.popup = None;
                        }
                    },
                    None => {},
                }
                self.stage = Stage::Idle;
                Request::Finish
            },
            Message::Surface => {
                self.stage = Stage::Idle;
                Request::ForwardSurface
            },
            Message::SubscriptionChannel => {
                self.stage = Stage::Idle;
                Request::Finish
            },
            Message::Refresh => {
                self.stage = Stage::AwaitDone;
                Request::RefreshDaemonState
            },
            Message::UpdateConfig(config) => {
                self.config = config;
                self.stage = Stage::Idle;
                Request::Finish
            },
            Message::ToggleIdleEnabled(b) => {
                self.local_config.idle_enabled = b;
                self.stage = Stage::Push(Setting::IdleEnabled(b));
                Request::QueryRunning
            },
            Message::ActiveSaverSelected(name) => {
                let random = {
                    let v = crate::text::chars_of(name.as_str());
                    same_text(&v, "Random")
                };
                if random {
                    self.local_config.active_saver = None;
                } else {
                    self.local_config.active_saver = Some(name);
                }
                self.stage = Stage::Push(Setting::ActiveSaver);
                Request::QueryRunning
            },
            Message::ToggleDaemon(on) => {
                if on {
                    self.stage = Stage::AfterStart;
                    Request::StartService
                } else {
                    self.stage = Stage::AfterStop;
                    Request::StopService
                }
            },
            Message::ToggleFpsOverlay(b) => {
                self.show_fps_overlay = b;
                self.stage = Stage::Push(Setting::FpsOverlay(b));
                Request::QueryRunning
            },
            Message::ToggleAdvanced => {
                self.show_advanced = !self.show_advanced;
                self.stage = Stage::Idle;
                Request::Finish
            },
            Message::DecreaseTimeout => self.bump_timeout(-5),
            Message::IncreaseTimeout => self.bump_timeout(5),
            Message::MiddleClick => self.start_preview(true),
            Message::TriggerPreview => self.start_preview(false),
            Message::OpenDashboard => {
                self.stage = Stage::AfterDashboard;
                Request::OpenDashboard
            },
            Message::ChangeRenderScale(text) => {
                self.local_config.render_scale = Some(text.clone());
                self.stage = Stage::Push(Setting::RenderScale(text));
                Request::QueryRunning
            },
        }
    }
}

} // verus!
