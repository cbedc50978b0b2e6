//! Carrying out the actions the reducer leaves for the runtime: what work
//! each one needs, and the state once the build list has been fetched.
use vstd::prelude::*;

use crate::app_core::indexing::{build_version_entries_from_builds, entry_view, listed_builds, plain_entry};
use crate::app_core::state::{AppAction, AppState, VersionEntry};
use crate::model::{BuildInfo, owned};
use crate::text::str_eq;

verus! {

/// The outside work an action needs.
#[derive(Debug)]
pub enum ActionWork {
    /// Fetch the build list, then hand it to [`AppState::show_builds`].
    FetchBuilds,
    /// Load the data of this version key.
    Load(String),
    /// Nothing.
    Nothing,
}

/// The picker row to start on: the first entry whose version is `key`, or
/// the first entry when none is.
pub open spec fn picker_row(entries: Seq<VersionEntry>, key: Seq<char>, p: int) -> bool {
    &&& 0 <= p < entries.len()
    &&& forall|j: int| 0 <= j < p ==> #[trigger] entries[j].version@ != key
    &&& (entries[p].version@ == key || (p == 0 && forall|j: int|
        0 <= j < entries.len() ==> #[trigger] entries[j].version@ != key))
}

impl AppState {
    /// Starts carrying out an action. Opening the version picker needs the
    /// build list. Switching versions closes the picker and loads the
    /// version unless it is the one loaded. Reloading a source directory
    /// clears its warnings and loads it again (without a source directory
    /// nothing happens).
    pub fn begin_action(&mut self, action: AppAction) -> (w: ActionWork)
        ensures
            match action {
                AppAction::OpenVersionPicker => w is FetchBuilds && *final(self) == *old(self),
                AppAction::SwitchVersion(v) => {
                    &&& *final(self) == (AppState { show_version_picker: false, ..*old(self) })
                    &&& if v@ == old(self).game_version_key@ {
                        w is Nothing
                    } else {
                        w matches ActionWork::Load(l) && l@ == v@
                    }
                },
                AppAction::ReloadSource => if old(self).source_dir is Some {
                    &&& final(self).source_warnings@.len() == 0
                    &&& *final(self) == (AppState { source_warnings: final(self).source_warnings, ..*old(self) })
                    &&& w matches ActionWork::Load(l) && l@ == "local"@
                } else {
                    w is Nothing && *final(self) == *old(self)
                },
            },
            old(self).wf() ==> final(self).wf(),
    {
        match action {
            AppAction::OpenVersionPicker => ActionWork::FetchBuilds,
            AppAction::SwitchVersion(v) => {
                self.show_version_picker = false;
                if str_eq(v.as_str(), self.game_version_key.as_str()) {
                    ActionWork::Nothing
                } else {
                    ActionWork::Load(v)
                }
            },
            AppAction::ReloadSource => {
                if self.source_dir.is_some() {
                    self.source_warnings = Vec::new();
                    ActionWork::Load(owned("local"))
                } else {
                    ActionWork::Nothing
                }
            },
        }
    }

    /// Opens the version picker on a fetched build list: its entries are
    /// `stable`, `nightly` and the other build numbers, and the selection
    /// starts on the loaded version's entry (on the first entry when it is
    /// not listed).
    pub fn show_builds(&mut self, builds: Vec<BuildInfo>)
        ensures
            final(self).version_entries@.map_values(|e: VersionEntry| entry_view(e)) == seq![
                plain_entry("stable"@),
                plain_entry("nightly"@),
            ] + listed_builds(builds@).map_values(|b: Seq<char>| plain_entry(b)),
            final(self).version_list_state.selected matches Some(p) && picker_row(
                final(self).version_entries@,
                old(self).game_version_key@,
                p as int,
            ),
            final(self).version_list_state == old(self).version_list_state.selected_as(
                final(self).version_list_state.selected,
            ),
            *final(self) == (AppState {
                version_entries: final(self).version_entries,
                version_list_state: final(self).version_list_state,
                show_version_picker: true,
                ..*old(self)
            }),
            old(self).wf() ==> final(self).wf(),
    {
        let entries = build_version_entries_from_builds(builds);
        proof {
            assert(entries@.map_values(|e: VersionEntry| entry_view(e)).len() >= 2);
        }
        let mut i: usize = 0;
        while i < entries.len() && !str_eq(entries[i].version.as_str(), self.game_version_key.as_str())
            invariant
                0 <= i <= entries@.len(),
                forall|j: int| 0 <= j < i ==> #[trigger] entries@[j].version@ != self.game_version_key@,
            decreases entries@.len() - i,
        {
            i += 1;
        }
        let row = if i < entries.len() {
            i
        } else {
            0
        };
        self.version_entries = entries;
        self.version_list_state.select(Some(row));
        self.show_version_picker = true;
    }
}

} // verus!
