//! What the popup shows, computed from the applet state: header, labels,
//! toggles and the grid of saver buttons (four per row, `Random` first).
use vstd::prelude::*;

use crate::applet::AppModel;
use crate::config::opt_view;
use crate::i18n::{localized, message, message_text};
use crate::saver_names::{display_saver_name, saver_label};
use crate::text::{decimal, decimal_chars, string_of};

verus! {

/// One saver button.
pub struct SaverButton {
    /// The name the button selects (`Random` for no fixed saver).
    pub value: String,
    /// The text on the button.
    pub label: String,
    /// Whether it is the current choice.
    pub selected: bool,
}

/// Everything the popup displays.
pub struct PopupContent {
    pub title: String,
    pub status: String,
    pub error: Option<String>,
    pub idle_enabled: bool,
    pub timeout_label: String,
    /// The text shown instead of the grid when no saver is installed.
    pub no_savers: Option<String>,
    pub saver_rows: Vec<Vec<SaverButton>>,
    pub preview_label: String,
    pub show_advanced: bool,
    pub show_fps_overlay: bool,
    pub daemon_running: bool,
}

/// The choices of the grid: `Random`, then the installed savers.
pub open spec fn saver_options(s: AppModel) -> Seq<Seq<char>> {
    seq!["Random"@] + s.screensavers@.map_values(|n: String| n@)
}

/// The name of the current choice: the active saver, else `Random`.
pub open spec fn selected_name(s: AppModel) -> Seq<char> {
    match s.local_config.active_saver {
        Some(n) => n@,
        None => "Random"@,
    }
}

/// `b` is the button for choice `opt` of `s`.
pub open spec fn is_button_for(s: AppModel, b: SaverButton, opt: Seq<char>) -> bool {
    &&& b.value@ == opt
    &&& b.label@ == saver_label(opt)
    &&& b.selected == (selected_name(s) == opt)
}

/// `rows` lays `opts` out in rows of four, in order: row `r` holds choices
/// `4r` up to `4r + 3`, and only the last row may be shorter.
pub open spec fn is_grid_of(s: AppModel, rows: Seq<Vec<SaverButton>>, opts: Seq<Seq<char>>) -> bool {
    &&& rows.len() == (opts.len() + 3) / 4
    &&& forall|r: int|
        0 <= r < rows.len() ==> #[trigger] rows[r]@.len() == if opts.len() - 4 * r >= 4 {
            4
        } else {
            opts.len() - 4 * r
        }
    &&& forall|r: int, j: int|
        0 <= r < rows.len() && 0 <= j < rows[r]@.len() ==> is_button_for(
            s,
            #[trigger] rows[r]@[j],
            opts[4 * r + j],
        )
}

/// A saver button is highlighted exactly when its choice is the current
/// one: the active saver, or `Random` when there is none.
pub proof fn law_button_selected_iff_current(s: AppModel, b: SaverButton, opt: Seq<char>)
    requires
        is_button_for(s, b, opt),
    ensures
        b.selected <==> match s.local_config.active_saver {
            Some(n) => opt == n@,
            None => opt == "Random"@,
        },
        b.value@ == opt,
{
}

/// The grid of a state's choices starts with the `Random` button, which
/// is highlighted exactly when no saver is active.
pub proof fn law_grid_starts_with_random(s: AppModel, rows: Seq<Vec<SaverButton>>)
    requires
        is_grid_of(s, rows, saver_options(s)),
    ensures
        rows.len() > 0,
        rows[0]@.len() > 0,
        rows[0]@[0].value@ == "Random"@,
        s.local_config.active_saver is None ==> rows[0]@[0].selected,
{
    let opts = saver_options(s);
    assert(opts[0] == "Random"@);
    assert(rows[0]@.len() > 0);
    assert(is_button_for(s, rows[0]@[0], opts[0]));
}

fn button(s: &AppModel, opt: String) -> (b: SaverButton)
    ensures
        is_button_for(*s, b, opt@),
{
    let label = display_saver_name(opt.as_str());
    let selected = match &s.local_config.active_saver {
        Some(n) => *n == opt,
        None => crate::text::same_text(&crate::text::chars_of(opt.as_str()), "Random"),
    };
    SaverButton { value: opt, label, selected }
}

impl AppModel {

    /// What the popup shows for this state.
    pub fn popup_content(&self) -> (p: PopupContent)
        ensures
            p.title@ == message_text("app-title"@, Seq::empty()),
            p.status@ == message_text(
                if self.daemon_running {
                    "status-running-short"@
                } else {
                    "status-stopped-short"@
                },
                Seq::empty(),
            ),
            opt_view(p.error) == opt_view(self.last_error),
            p.idle_enabled == self.local_config.idle_enabled,
            p.timeout_label@ == message_text(
                "timeout-minutes"@,
                seq![("mins"@, decimal(self.local_config.idle_timeout_mins as nat))],
            ),
            match p.no_savers {
                Some(t) => self.screensavers@.len() == 0 && t@ == message_text(
                    "no-savers"@,
                    Seq::empty(),
                ),
                None => self.screensavers@.len() > 0,
            },
            self.screensavers@.len() == 0 ==> p.saver_rows@.len() == 0,
            self.screensavers@.len() > 0 ==> is_grid_of(*self, p.saver_rows@, saver_options(*self)),
            p.preview_label@ == message_text(
                if self.daemon_running {
                    "preview-now"@
                } else {
                    "preview-starts-daemon"@
                },
                Seq::empty(),
            ),
            p.show_advanced == self.show_advanced,
            p.show_fps_overlay == self.show_fps_overlay,
            p.daemon_running == self.daemon_running,
    {
        let status = if self.daemon_running {
            localized("status-running-short")
        } else {
            localized("status-stopped-short")
        };
        let mins = string_of(&decimal_chars(self.local_config.idle_timeout_mins as u64));
        let mut args: Vec<(&str, String)> = Vec::new();
        args.push(("mins", mins));
        let timeout_label = message("timeout-minutes", args.as_slice());
        assert(crate::i18n::args_view(args@) =~= seq![
            ("mins"@, decimal(self.local_config.idle_timeout_mins as nat)),
        ]);
        let no_savers = if self.screensavers.len() == 0 {
            Some(localized("no-savers"))
        } else {
            None
        };
        let preview_label = if self.daemon_running {
            localized("preview-now")
        } else {
            localized("preview-starts-daemon")
        };
        let error = match &self.last_error {
            Some(e) => Some(e.clone()),
            None => None,
        };
        PopupContent {
            title: localized("app-title"),
            status,
            error,
            idle_enabled: self.local_config.idle_enabled,
            timeout_label,
            no_savers,
            saver_rows: self.saver_grid(),
            preview_label,
            show_advanced: self.show_advanced,
            show_fps_overlay: self.show_fps_overlay,
            daemon_running: self.daemon_running,
        }
    }

    /// The saver buttons, four per row; no rows when no saver is installed.
    pub fn saver_grid(&self) -> (rows: Vec<Vec<SaverButton>>)
        ensures
            self.screensavers@.len() == 0 ==> rows@.len() == 0,
            self.screensavers@.len() > 0 ==> is_grid_of(*self, rows@, saver_options(*self)),
    {
        let mut rows: Vec<Vec<SaverButton>> = Vec::new();
        if self.screensavers.len() == 0 {
            return rows;
        }
        let ghost opts = saver_options(*self);
        let mut options: Vec<String> = Vec::new();
        options.push("Random".to_owned());
        let mut k: usize = 0;
        while k < self.screensavers.len()
            invariant
                k <= self.screensavers@.len(),
                options@.len() == k + 1,
                options@[0]@ == "Random"@,
                forall|m: int| 0 < m <= k ==> #[trigger] options@[m]@ == self.screensavers@[m - 1]@,
            decreases self.screensavers@.len() - k,
        {
            options.push(self.screensavers[k].clone());
            k = k + 1;
        }
        assert forall|m: int| 0 <= m < options@.len() implies #[trigger] options@[m]@ == opts[m] by {
            if m > 0 {
                assert(opts[m] == self.screensavers@[m - 1]@);
            }
        }
        let n = options.len();
        let mut row: Vec<SaverButton> = Vec::new();
        let mut i: usize = 0;
        while i < n
            invariant
                n == options@.len() == opts.len(),
                i <= n,
                forall|m: int| 0 <= m < n ==> #[trigger] options@[m]@ == opts[m],
                rows@.len() == i / 4,
                row@.len() == i % 4,
                forall|r: int| 0 <= r < rows@.len() ==> #[trigger] rows@[r]@.len() == 4,
                forall|r: int, j: int|
                    0 <= r < rows@.len() && 0 <= j < rows@[r]@.len() ==> is_button_for(
                        *self,
                        #[trigger] rows@[r]@[j],
                        opts[4 * r + j],
                    ),
                forall|j: int| 0 <= j < row@.len() ==> is_button_for(
                    *self,
                    #[trigger] row@[j],
                    opts[4 * (i / 4) + j],
                ),
            decreases n - i,
        {
            let b = button(self, options[i].clone());
            row.push(b);
            if (i + 1) % 4 == 0 {
                let full = row;
                row = Vec::new();
                let ghost before = rows@;
                rows.push(full);
                proof {
                    assert forall|r: int, j: int|
                        0 <= r < rows@.len() && 0 <= j < rows@[r]@.len() implies is_button_for(
                        *self,
                        #[trigger] rows@[r]@[j],
                        opts[4 * r + j],
                    ) by {
                        if r < before.len() {
                            assert(rows@[r] == before[r]);
                        }
                    }
                }
            }
            i = i + 1;
        }
        if n % 4 != 0 {
            let ghost before = rows@;
            rows.push(row);
            proof {
                assert forall|r: int, j: int|
                    0 <= r < rows@.len() && 0 <= j < rows@[r]@.len() implies is_button_for(
                    *self,
                    #[trigger] rows@[r]@[j],
                    opts[4 * r + j],
                ) by {
                    if r < before.len() {
                        assert(rows@[r] == before[r]);
                    }
                }
            }
        }
        rows
    }
}

} // verus!
