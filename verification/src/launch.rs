//! The order in which the applet tries to open the dashboard and to start
//! a preview, as plans that name one outside attempt at a time and move on
//! by its result.
use vstd::prelude::*;

verus! {

/// Terminals tried for the dashboard, each with the flags that precede the
/// program to run.
pub open spec fn terminals() -> Seq<(Seq<char>, Seq<Seq<char>>)> {
    seq![
        ("cosmic-term"@, seq!["-e"@]),
        ("cosmic-term"@, seq!["--"@]),
        ("kgx"@, seq!["-e"@]),
        ("gnome-terminal"@, seq!["--"@]),
        ("alacritty"@, seq!["-e"@]),
        ("kitty"@, Seq::empty()),
        ("foot"@, seq!["-e"@]),
        ("xterm"@, seq!["-e"@]),
    ]
}

/// Dashboard programs tried in each terminal.
pub open spec fn dashboard_programs() -> Seq<Seq<Seq<char>>> {
    seq![
        seq!["idle-tui"@],
        seq!["idlescreen-tui"@],
        seq!["idlescreen"@, "tui"@],
        seq!["idle"@, "tui"@],
    ]
}

/// Desktop entries tried with `gtk-launch` when no terminal works.
pub open spec fn desktop_ids() -> Seq<Seq<char>> {
    seq!["io.github.idlescreen.tui"@, "idlescreen"@]
}

/// Where a dashboard launch stands.
#[derive(Clone, Copy)]
pub enum DashboardStage {
    /// Check whether terminal `t` is installed.
    Check(usize),
    /// Run program `p` in terminal `t`.
    Try(usize, usize),
    /// Launch desktop entry `g`.
    Gtk(usize),
    /// Finished: whether something was launched.
    Done(bool),
}

/// One outside attempt of a dashboard launch.
pub enum LaunchStep {
    /// Run `which` on this program; answer whether it succeeded.
    Which(String),
    /// Spawn this command line in a new session; answer whether it spawned.
    SpawnDetached(Vec<String>),
    /// Spawn this command line; answer whether it spawned.
    Spawn(Vec<String>),
    /// Nothing more: the launch result.
    Finished(bool),
}

/// The stage that checks terminal `t`, or the desktop entries after the last.
pub open spec fn from_terminal(t: int) -> DashboardStage {
    if t < terminals().len() {
        DashboardStage::Check(t as usize)
    } else {
        DashboardStage::Gtk(0)
    }
}

/// The dashboard stage after the attempt of stage `s` answered `ok`.
pub open spec fn dashboard_next(s: DashboardStage, ok: bool) -> DashboardStage {
    match s {
        DashboardStage::Check(t) => if ok {
            DashboardStage::Try(t, 0)
        } else {
            from_terminal(t + 1)
        },
        DashboardStage::Try(t, p) => if ok {
            DashboardStage::Done(true)
        } else if p + 1 < dashboard_programs().len() {
            DashboardStage::Try(t, (p + 1) as usize)
        } else {
            from_terminal(t + 1)
        },
        DashboardStage::Gtk(g) => if ok {
            DashboardStage::Done(true)
        } else if g + 1 < desktop_ids().len() {
            DashboardStage::Gtk((g + 1) as usize)
        } else {
            DashboardStage::Done(false)
        },
        DashboardStage::Done(b) => DashboardStage::Done(b),
    }
}

/// A stage that names an existing terminal, program or entry.
pub open spec fn dashboard_stage_ok(s: DashboardStage) -> bool {
    match s {
        DashboardStage::Check(t) => t < terminals().len(),
        DashboardStage::Try(t, p) => t < terminals().len() && p < dashboard_programs().len(),
        DashboardStage::Gtk(g) => g < desktop_ids().len(),
        DashboardStage::Done(_) => true,
    }
}

pub open spec fn strings_view(v: Seq<String>) -> Seq<Seq<char>> {
    v.map_values(|s: String| s@)
}

/// The attempt that stage `s` makes.
pub open spec fn dashboard_step_is(s: DashboardStage, step: LaunchStep) -> bool {
    match s {
        DashboardStage::Check(t) => {
            &&& step matches LaunchStep::Which(n)
            &&& n@ == terminals()[t as int].0
        },
        DashboardStage::Try(t, p) => step matches LaunchStep::SpawnDetached(argv) && strings_view(
            argv@,
        ) == seq![terminals()[t as int].0] + terminals()[t as int].1 + dashboard_programs()[p as int],
        DashboardStage::Gtk(g) => step matches LaunchStep::Spawn(argv) && strings_view(argv@)
            == seq!["gtk-launch"@, desktop_ids()[g as int]],
        DashboardStage::Done(b) => step == LaunchStep::Finished(b),
    }
}

/// How many attempts at most remain from stage `s`.
pub open spec fn dashboard_rank(s: DashboardStage) -> nat {
    match s {
        DashboardStage::Check(t) => ((8 - t) * 5 + 2) as nat,
        DashboardStage::Try(t, p) => ((8 - t) * 5 - 1 - p + 2) as nat,
        DashboardStage::Gtk(g) => (2 - g) as nat,
        DashboardStage::Done(_) => 0,
    }
}

/// A dashboard launch: terminals in order, each checked with `which` and
/// then tried with every dashboard program; then the desktop entries.
pub struct DashboardLaunch {
    pub stage: DashboardStage,
}

fn owned(s: &str) -> (r: String)
    ensures
        r@ == s@,
{
    s.to_owned()
}

fn terminal_name(t: usize) -> (r: String)
    requires
        t < 8,
    ensures
        r@ == terminals()[t as int].0,
{
    if t == 0 {
        owned("cosmic-term")
    } else if t == 1 {
        owned("cosmic-term")
    } else if t == 2 {
        owned("kgx")
    } else if t == 3 {
        owned("gnome-terminal")
    } else if t == 4 {
        owned("alacritty")
    } else if t == 5 {
        owned("kitty")
    } else if t == 6 {
        owned("foot")
    } else {
        owned("xterm")
    }
}

fn push_terminal_flags(argv: &mut Vec<String>, t: usize)
    requires
        t < 8,
    ensures
        strings_view(final(argv)@) == strings_view(old(argv)@) + terminals()[t as int].1,
{
    let ghost start = strings_view(argv@);
    if t == 1 || t == 3 {
        argv.push(owned("--"));
        assert(strings_view(argv@) =~= start + terminals()[t as int].1);
    } else if t == 5 {
        assert(strings_view(argv@) =~= start + terminals()[t as int].1);
    } else {
        argv.push(owned("-e"));
        assert(strings_view(argv@) =~= start + terminals()[t as int].1);
    }
}

fn push_program(argv: &mut Vec<String>, p: usize)
    requires
        p < 4,
    ensures
        strings_view(final(argv)@) == strings_view(old(argv)@) + dashboard_programs()[p as int],
{
    let ghost start = strings_view(argv@);
    if p == 0 {
        argv.push(owned("idle-tui"));
    } else if p == 1 {
        argv.push(owned("idlescreen-tui"));
    } else if p == 2 {
        argv.push(owned("idlescreen"));
        argv.push(owned("tui"));
    } else {
        argv.push(owned("idle"));
        argv.push(owned("tui"));
    }
    assert(strings_view(argv@) =~= start + dashboard_programs()[p as int]);
}

impl DashboardLaunch {
    /// A launch that starts with the first terminal.
    pub fn new() -> (r: Self)
        ensures
            r.stage == DashboardStage::Check(0),
    {
        DashboardLaunch { stage: DashboardStage::Check(0) }
    }

    /// The attempt to make now.
    pub fn step(&self) -> (r: LaunchStep)
        requires
            dashboard_stage_ok(self.stage),
        ensures
            dashboard_step_is(self.stage, r),
    {
        match self.stage {
            DashboardStage::Check(t) => {
                let n = terminal_name(t);
                LaunchStep::Which(n)
            },
            DashboardStage::Try(t, p) => {
                let mut argv: Vec<String> = Vec::new();
                argv.push(terminal_name(t));
                assert(strings_view(argv@) =~= seq![terminals()[t as int].0]);
                push_terminal_flags(&mut argv, t);
                push_program(&mut argv, p);
                LaunchStep::SpawnDetached(argv)
            },
            DashboardStage::Gtk(g) => {
                let mut argv: Vec<String> = Vec::new();
                argv.push(owned("gtk-launch"));
                if g == 0 {
                    argv.push(owned("io.github.idlescreen.tui"));
                } else {
                    argv.push(owned("idlescreen"));
                }
                assert(strings_view(argv@) =~= seq!["gtk-launch"@, desktop_ids()[g as int]]);
                LaunchStep::Spawn(argv)
            },
            DashboardStage::Done(b) => LaunchStep::Finished(b),
        }
    }

    /// Record the result of the attempt just made.
    pub fn answer(&mut self, ok: bool)
        requires
            dashboard_stage_ok(old(self).stage),
        ensures
            final(self).stage == dashboard_next(old(self).stage, ok),
            dashboard_stage_ok(final(self).stage),
    {
        self.stage = match self.stage {
            DashboardStage::Check(t) => if ok {
                DashboardStage::Try(t, 0)
            } else if t + 1 < 8 {
                DashboardStage::Check(t + 1)
            } else {
                DashboardStage::Gtk(0)
            },
            DashboardStage::Try(t, p) => if ok {
                DashboardStage::Done(true)
            } else if p + 1 < 4 {
                DashboardStage::Try(t, p + 1)
            } else if t + 1 < 8 {
                DashboardStage::Check(t + 1)
            } else {
                DashboardStage::Gtk(0)
            },
            DashboardStage::Gtk(g) => if ok {
                DashboardStage::Done(true)
            } else if g + 1 < 2 {
                DashboardStage::Gtk(g + 1)
            } else {
                DashboardStage::Done(false)
            },
            DashboardStage::Done(b) => DashboardStage::Done(b),
        };
    }
}


/// Packaged binaries whose `run-plugin` helper can show a preview.
pub open spec fn plugin_hosts() -> Seq<Seq<char>> {
    seq!["idle-daemon"@, "idlescreen-daemon"@, "trance-daemon"@]
}

/// Why a preview could not be started.
pub enum PreviewError {
    /// The helper exited at once with a failure status (its text).
    ExitedEarly(String),
    /// No helper could be spawned.
    NoHelper,
}

/// Where a preview start stands.
pub enum PreviewStage {
    /// Ask whether the daemon runs.
    CheckRunning,
    /// Try to start the daemon (its result is not used).
    StartDaemon,
    /// Ask again whether the daemon runs.
    CheckAgain,
    /// Ask the daemon over D-Bus for the preview.
    Dbus,
    /// Spawn the helper of plugin host `i`.
    Spawn(usize),
    /// Finished.
    Done(Result<(), PreviewError>),
}

/// One outside attempt of a preview start.
pub enum PreviewStep {
    /// Whether the daemon runs; answer `PreviewAnswer::Running`.
    IsRunning,
    /// Start the daemon service; answer `PreviewAnswer::Attempted`.
    StartService,
    /// D-Bus preview of this saver; answer `PreviewAnswer::Previewed`.
    DbusPreview(String),
    /// Spawn `host run-plugin name`, wait briefly and look at it; answer
    /// `PreviewAnswer::Spawned`.
    SpawnHelper(String, String),
    /// Nothing more: the result.
    Finished(Result<(), PreviewError>),
}

/// What came of a spawned helper.
pub enum SpawnResult {
    /// It could not be spawned.
    NotSpawned,
    /// It exited at once with a failure status (its text).
    ExitedEarly(String),
    /// It runs, or exited successfully.
    Started,
}

/// The result of a preview attempt.
pub enum PreviewAnswer {
    Running(bool),
    Attempted,
    Previewed(bool),
    Spawned(SpawnResult),
}

/// The stage after spawn attempt `i` failed.
pub open spec fn after_spawn_failure(i: usize) -> PreviewStage {
    if i + 1 < plugin_hosts().len() {
        PreviewStage::Spawn((i + 1) as usize)
    } else {
        PreviewStage::Done(Err(PreviewError::NoHelper))
    }
}

/// The stage after stage `s` got answer `a`; an answer the stage does not
/// wait for leaves it unchanged.
pub open spec fn preview_next(s: PreviewStage, a: PreviewAnswer) -> PreviewStage {
    match (s, a) {
        (PreviewStage::CheckRunning, PreviewAnswer::Running(b)) => if b {
            PreviewStage::CheckAgain
        } else {
            PreviewStage::StartDaemon
        },
        (PreviewStage::StartDaemon, PreviewAnswer::Attempted) => PreviewStage::CheckAgain,
        (PreviewStage::CheckAgain, PreviewAnswer::Running(b)) => if b {
            PreviewStage::Dbus
        } else {
            PreviewStage::Spawn(0)
        },
        (PreviewStage::Dbus, PreviewAnswer::Previewed(ok)) => if ok {
            PreviewStage::Done(Ok(()))
        } else {
            PreviewStage::Spawn(0)
        },
        (PreviewStage::Spawn(i), PreviewAnswer::Spawned(r)) => match r {
            SpawnResult::NotSpawned => after_spawn_failure(i),
            SpawnResult::ExitedEarly(st) => PreviewStage::Done(Err(PreviewError::ExitedEarly(st))),
            SpawnResult::Started => PreviewStage::Done(Ok(())),
        },
        (s, _) => s,
    }
}

/// The attempt that stage `s` makes when previewing `name`.
pub open spec fn preview_step_is(s: PreviewStage, name: Seq<char>, step: PreviewStep) -> bool {
    match s {
        PreviewStage::CheckRunning => step == PreviewStep::IsRunning,
        PreviewStage::StartDaemon => step == PreviewStep::StartService,
        PreviewStage::CheckAgain => step == PreviewStep::IsRunning,
        PreviewStage::Dbus => step matches PreviewStep::DbusPreview(n) && n@ == name,
        PreviewStage::Spawn(i) => {
            &&& step matches PreviewStep::SpawnHelper(h, n)
            &&& h@ == plugin_hosts()[i as int]
            &&& n@ == name
        },
        PreviewStage::Done(r) => step == PreviewStep::Finished(r),
    }
}

pub open spec fn preview_stage_ok(s: PreviewStage) -> bool {
    match s {
        PreviewStage::Spawn(i) => i < plugin_hosts().len(),
        _ => true,
    }
}

/// A preview start: prefer the daemon over D-Bus, starting it first if it
/// is down; as a last resort run a packaged `run-plugin` helper.
pub struct PreviewLaunch {
    pub name: String,
    pub stage: PreviewStage,
}

impl PreviewLaunch {
    /// A preview start of saver `name`.
    pub fn new(name: String) -> (r: Self)
        ensures
            r.name == name,
            r.stage == PreviewStage::CheckRunning,
    {
        PreviewLaunch { name, stage: PreviewStage::CheckRunning }
    }

    /// The attempt to make now.
    pub fn step(&self) -> (r: PreviewStep)
        requires
            preview_stage_ok(self.stage),
        ensures
            preview_step_is(self.stage, self.name@, r),
    {
        match &self.stage {
            PreviewStage::CheckRunning => PreviewStep::IsRunning,
            PreviewStage::StartDaemon => PreviewStep::StartService,
            PreviewStage::CheckAgain => PreviewStep::IsRunning,
            PreviewStage::Dbus => PreviewStep::DbusPreview(self.name.clone()),
            PreviewStage::Spawn(i) => {
                let host = if *i == 0 {
                    owned("idle-daemon")
                } else if *i == 1 {
                    owned("idlescreen-daemon")
                } else {
                    owned("trance-daemon")
                };
                PreviewStep::SpawnHelper(host, self.name.clone())
            },
            PreviewStage::Done(r) => {
                let out: Result<(), PreviewError> = match r {
                    Ok(u) => Ok(*u),
                    Err(PreviewError::NoHelper) => Err(PreviewError::NoHelper),
                    Err(PreviewError::ExitedEarly(st)) => {
                        let c = st.clone();
                        assert(c == *st);
                        Err(PreviewError::ExitedEarly(c))
                    },
                };
                assert(out == *r);
                PreviewStep::Finished(out)
            },
        }
    }

    /// Record the result of the attempt just made.
    pub fn answer(&mut self, a: PreviewAnswer)
        requires
            preview_stage_ok(old(self).stage),
        ensures
            final(self).stage == preview_next(old(self).stage, a),
            final(self).name == old(self).name,
            preview_stage_ok(final(self).stage),
    {
        let mut stage = PreviewStage::CheckRunning;
        std::mem::swap(&mut stage, &mut self.stage);
        self.stage = match (stage, a) {
            (PreviewStage::CheckRunning, PreviewAnswer::Running(b)) => if b {
                PreviewStage::CheckAgain
            } else {
                PreviewStage::StartDaemon
            },
            (PreviewStage::StartDaemon, PreviewAnswer::Attempted) => PreviewStage::CheckAgain,
            (PreviewStage::CheckAgain, PreviewAnswer::Running(b)) => if b {
                PreviewStage::Dbus
            } else {
                PreviewStage::Spawn(0)
            },
            (PreviewStage::Dbus, PreviewAnswer::Previewed(ok)) => if ok {
                PreviewStage::Done(Ok(()))
            } else {
                PreviewStage::Spawn(0)
            },
            (PreviewStage::Spawn(i), PreviewAnswer::Spawned(r)) => match r {
                SpawnResult::NotSpawned => if i + 1 < 3 {
                    PreviewStage::Spawn(i + 1)
                } else {
                    PreviewStage::Done(Err(PreviewError::NoHelper))
                },
                SpawnResult::ExitedEarly(st) => PreviewStage::Done(
                    Err(PreviewError::ExitedEarly(st)),
                ),
                SpawnResult::Started => PreviewStage::Done(Ok(())),
            },
            (s, _) => s,
        };
    }
}

} // verus!
