//! Verified core of the IdleScreen COSMIC panel applet.
use vstd::prelude::*;

pub mod applet;
pub mod applet_laws;
pub mod config;
pub mod config_laws;
pub mod config_paths;
pub mod i18n;
pub mod launch;
pub mod merge_laws;
pub mod pidfile;
pub mod popup;
pub mod saver_names;
pub mod text;

verus! {

} // verus!
