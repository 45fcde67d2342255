//! Hot reloading: which file changes matter, when changes are taken in, and what is
//! reloaded for each of them.

use crate::text::{contains_text, ends_with, str_contains, str_ends_with, str_eq, to_owned_string};
use vstd::prelude::*;

verus! {

/// A change that calls for reloading.
#[derive(Clone, Debug)]
pub enum HotReloadEvent {
    /// A Lua script changed.
    LuaScriptChanged(String),
    /// A configuration file changed.
    ConfigChanged(String),
    /// An asset file changed.
    AssetChanged(String),
    /// A reload was asked for by hand (F5).
    ManualReload,
}

/// A [`HotReloadEvent`] with its path seen as a character sequence.
pub ghost enum HotReloadEventView {
    LuaScriptChanged(Seq<char>),
    ConfigChanged(Seq<char>),
    AssetChanged(Seq<char>),
    ManualReload,
}

impl View for HotReloadEvent {
    type V = HotReloadEventView;

    open spec fn view(&self) -> HotReloadEventView {
        match self {
            HotReloadEvent::LuaScriptChanged(p) => HotReloadEventView::LuaScriptChanged(p@),
            HotReloadEvent::ConfigChanged(p) => HotReloadEventView::ConfigChanged(p@),
            HotReloadEvent::AssetChanged(p) => HotReloadEventView::AssetChanged(p@),
            HotReloadEvent::ManualReload => HotReloadEventView::ManualReload,
        }
    }
}

/// Something the game reloads.
#[derive(Clone, Debug)]
pub enum ReloadAction {
    /// Run the main script `game/main.lua` again.
    LoadMainScript,
    /// Reload the configuration modules.
    ReloadConfigs,
    /// Reload the asset at this path, relative to the asset directory where it lies in it.
    ReloadAsset(String),
}

/// A [`ReloadAction`] with its path seen as a character sequence.
pub ghost enum ReloadActionView {
    LoadMainScript,
    ReloadConfigs,
    ReloadAsset(Seq<char>),
}

impl View for ReloadAction {
    type V = ReloadActionView;

    open spec fn view(&self) -> ReloadActionView {
        match self {
            ReloadAction::LoadMainScript => ReloadActionView::LoadMainScript,
            ReloadAction::ReloadConfigs => ReloadActionView::ReloadConfigs,
            ReloadAction::ReloadAsset(p) => ReloadActionView::ReloadAsset(p@),
        }
    }
}

/// Whether a file with this path is an image or model asset.
pub open spec fn is_asset_path(p: Seq<char>) -> bool {
    ends_with(p, ".png"@) || ends_with(p, ".jpg"@) || ends_with(p, ".gltf"@) || ends_with(p, ".glb"@)
}

/// The event for a change of the file at `p`, by its ending: `.lua` scripts, `.toml`
/// configuration, and image and model assets; other files are ignored.
pub open spec fn change_event(p: Seq<char>) -> Option<HotReloadEventView> {
    if ends_with(p, ".lua"@) {
        Some(HotReloadEventView::LuaScriptChanged(p))
    } else if ends_with(p, ".toml"@) {
        Some(HotReloadEventView::ConfigChanged(p))
    } else if is_asset_path(p) {
        Some(HotReloadEventView::AssetChanged(p))
    } else {
        None
    }
}

/// The events for the changed files `ps`, in order, the ignored ones left out.
pub open spec fn change_events(ps: Seq<Seq<char>>) -> Seq<HotReloadEventView>
    decreases ps.len(),
{
    if ps.len() == 0 {
        Seq::empty()
    } else {
        let rest = change_events(ps.drop_last());
        match change_event(ps.last()) {
            Some(e) => rest.push(e),
            None => rest,
        }
    }
}

/// Whole milliseconds from `last` to `elapsed` (both in nanoseconds), or zero when
/// `elapsed` is not after `last`.
pub open spec fn millis_since(elapsed: u128, last: u128) -> int {
    if elapsed >= last {
        (elapsed - last) / 1_000_000
    } else {
        0
    }
}

/// The reloads for `e`. For an asset, `stripped` is its path relative to the asset
/// directory when it lies in it: that path is reloaded, else the full path.
pub open spec fn reload_plan(e: HotReloadEventView, stripped: Option<Seq<char>>) -> Seq<ReloadActionView> {
    match e {
        HotReloadEventView::LuaScriptChanged(p) => (if contains_text(p, "main.lua"@) {
            seq![ReloadActionView::LoadMainScript]
        } else {
            Seq::empty()
        }) + (if contains_text(p, "config/"@) {
            seq![ReloadActionView::ReloadConfigs]
        } else {
            Seq::empty()
        }),
        HotReloadEventView::ConfigChanged(_) => seq![ReloadActionView::ReloadConfigs],
        HotReloadEventView::AssetChanged(p) => seq![
            ReloadActionView::ReloadAsset(
                match stripped {
                    Some(r) => r,
                    None => p,
                },
            ),
        ],
        HotReloadEventView::ManualReload => seq![
            ReloadActionView::LoadMainScript,
            ReloadActionView::ReloadConfigs,
        ],
    }
}

/// What each event reloads. The main script is reloaded exactly for a manual reload or a
/// change of a Lua script whose path contains `main.lua`; the configuration exactly for a
/// manual reload, a configuration change, or a change of a Lua script whose path contains
/// `config/`; an asset exactly for an asset change, under its path relative to the asset
/// directory when it lies in it. Nothing is reloaded twice, the main script comes before the
/// configuration, and a configuration change reloads the configuration alone.
pub proof fn law_reload_plan_targets(e: HotReloadEventView, stripped: Option<Seq<char>>)
    ensures
        reload_plan(e, stripped).contains(ReloadActionView::LoadMainScript) <==> (e is ManualReload || (
        e matches HotReloadEventView::LuaScriptChanged(p) && contains_text(p, "main.lua"@))),
        reload_plan(e, stripped).contains(ReloadActionView::ReloadConfigs) <==> (e is ManualReload
            || e is ConfigChanged || (e matches HotReloadEventView::LuaScriptChanged(p) && contains_text(
            p,
            "config/"@,
        ))),
        forall|x: Seq<char>| #[trigger]
            reload_plan(e, stripped).contains(ReloadActionView::ReloadAsset(x)) <==> (
            e matches HotReloadEventView::AssetChanged(p) && x == (match stripped {
                Some(r) => r,
                None => p,
            })),
        reload_plan(e, stripped).len() <= 2,
        reload_plan(e, stripped).no_duplicates(),
        forall|i: int, j: int|
            0 <= i < j < reload_plan(e, stripped).len() ==> !(reload_plan(e, stripped)[i] is ReloadConfigs
                && reload_plan(e, stripped)[j] is LoadMainScript),
        e is ConfigChanged ==> reload_plan(e, stripped) == seq![ReloadActionView::ReloadConfigs],
{
    let plan = reload_plan(e, stripped);
    match e {
        HotReloadEventView::LuaScriptChanged(p) => {
            let a: Seq<ReloadActionView> = if contains_text(p, "main.lua"@) {
                seq![ReloadActionView::LoadMainScript]
            } else {
                Seq::empty()
            };
            let b: Seq<ReloadActionView> = if contains_text(p, "config/"@) {
                seq![ReloadActionView::ReloadConfigs]
            } else {
                Seq::empty()
            };
            assert(plan == a + b);
            if a.len() == 1 {
                assert(plan[0] == ReloadActionView::LoadMainScript);
            }
            if b.len() == 1 {
                assert(plan[a.len() as int] == ReloadActionView::ReloadConfigs);
            }
            assert(plan.contains(ReloadActionView::LoadMainScript) ==> contains_text(p, "main.lua"@));
            assert(plan.contains(ReloadActionView::ReloadConfigs) ==> contains_text(p, "config/"@));
        },
        HotReloadEventView::ConfigChanged(_) => {
            assert(plan[0] == ReloadActionView::ReloadConfigs);
        },
        HotReloadEventView::AssetChanged(p) => {
            let r = match stripped {
                Some(r) => r,
                None => p,
            };
            assert(plan[0] == ReloadActionView::ReloadAsset(r));
        },
        HotReloadEventView::ManualReload => {
            assert(plan[0] == ReloadActionView::LoadMainScript);
            assert(plan[1] == ReloadActionView::ReloadConfigs);
        },
    }
}

/// What `std::path::Path::strip_prefix` gives for `path` and `base`: the rest of `path`
/// after the components of `base`, when `path` begins with them.
pub uninterp spec fn path_without_prefix(path: Seq<char>, base: Seq<char>) -> Option<Seq<char>>;

/// `std::path::Path::strip_prefix`, as text: the part of `path` after `base`, when `base`
/// is a leading part of `path` by whole components. Its result is named, not stated.
#[verifier::external_body]
fn strip_path_prefix(path: &str, base: &str) -> (r: Option<String>)
    ensures
        r matches Some(s) ==> path_without_prefix(path@, base@) == Some(s@),
        r is None ==> path_without_prefix(path@, base@) is None,
{
    match std::path::Path::new(path).strip_prefix(base) {
        Ok(rest) => Some(rest.to_string_lossy().to_string()),
        Err(_) => None,
    }
}

/// The event for a change of the file at `path`, if it is one that is reloaded.
pub fn classify_change(path: &str) -> (r: Option<HotReloadEvent>)
    ensures
        r matches Some(e) ==> change_event(path@) == Some(e@),
        r is None ==> change_event(path@) is None,
{
    if str_ends_with(path, ".lua") {
        Some(HotReloadEvent::LuaScriptChanged(to_owned_string(path)))
    } else if str_ends_with(path, ".toml") {
        Some(HotReloadEvent::ConfigChanged(to_owned_string(path)))
    } else if str_ends_with(path, ".png") || str_ends_with(path, ".jpg") || str_ends_with(path, ".gltf")
        || str_ends_with(path, ".glb") {
        Some(HotReloadEvent::AssetChanged(to_owned_string(path)))
    } else {
        None
    }
}

/// Whether an on/off setting read from the environment is on: it is `1` or `true`.
pub fn switch_is_on(value: Option<String>) -> (r: bool)
    ensures
        r == (value matches Some(v) && (v@ == "1"@ || v@ == "true"@)),
{
    match value {
        Some(v) => str_eq(v.as_str(), "1") || str_eq(v.as_str(), "true"),
        None => false,
    }
}

/// The state of file-change hot reloading.
pub struct HotReloadState {
    /// Whether hot reloading is on.
    pub enabled: bool,
    /// When changes were last taken in, in nanoseconds since the game started.
    pub last_reload: u128,
    /// How long after taking changes in further changes wait, in milliseconds.
    pub cooldown_ms: u64,
}

impl HotReloadState {
    /// Hot reloading on, with a 500 ms wait between batches of changes.
    pub fn new() -> (s: Self)
        ensures
            s.enabled,
            s.last_reload == 0,
            s.cooldown_ms == 500,
    {
        HotReloadState { enabled: true, last_reload: 0, cooldown_ms: 500 }
    }

    /// Whether changes are taken in at time `elapsed` (nanoseconds since the game started):
    /// hot reloading is on and the wait since the last batch is over. Pending changes are
    /// left waiting otherwise.
    pub fn accepts_changes(&self, elapsed: u128) -> (r: bool)
        ensures
            r == takes_changes(self, elapsed),
    {
        if !self.enabled {
            return false;
        }
        let since = if elapsed >= self.last_reload { (elapsed - self.last_reload) / 1_000_000 } else { 0 };
        since >= self.cooldown_ms as u128
    }

    /// Takes in the changed files `paths` at time `elapsed`: returns their events in order,
    /// and, when there is at least one, records `elapsed` as the time of the last batch.
    pub fn record_changes(&mut self, elapsed: u128, paths: &Vec<String>) -> (r: Vec<HotReloadEvent>)
        ensures
            r@.map_values(|e: HotReloadEvent| e@) == change_events(paths@.map_values(|p: String| p@)),
            final(self).last_reload == (if r@.len() > 0 {
                elapsed
            } else {
                old(self).last_reload
            }),
            final(self).enabled == old(self).enabled,
            final(self).cooldown_ms == old(self).cooldown_ms,
    {
        let ghost ps = paths@.map_values(|p: String| p@);
        let mut r: Vec<HotReloadEvent> = Vec::new();
        let mut i: usize = 0;
        while i < paths.len()
            invariant
                i <= paths@.len(),
                ps == paths@.map_values(|p: String| p@),
                r@.map_values(|e: HotReloadEvent| e@) == change_events(ps.take(i as int)),
                self.last_reload == (if r@.len() > 0 {
                    elapsed
                } else {
                    old(self).last_reload
                }),
                self.enabled == old(self).enabled,
                self.cooldown_ms == old(self).cooldown_ms,
            decreases paths@.len() - i,
        {
            let ghost before = r@.map_values(|e: HotReloadEvent| e@);
            proof {
                assert(ps.take(i + 1).drop_last() =~= ps.take(i as int));
                assert(ps.take(i + 1).last() == paths@[i as int]@);
            }
            match classify_change(paths[i].as_str()) {
                Some(e) => {
                    r.push(e);
                    self.last_reload = elapsed;
                    proof {
                        assert(r@.map_values(|e: HotReloadEvent| e@) =~= before.push(e@));
                    }
                },
                None => {},
            }
            i = i + 1;
        }
        proof {
            assert(ps.take(paths@.len() as int) =~= ps);
        }
        r
    }
}

/// Whether a state takes changes in at time `elapsed`.
pub open spec fn takes_changes(s: &HotReloadState, elapsed: u128) -> bool {
    s.enabled && millis_since(elapsed, s.last_reload) >= s.cooldown_ms
}

/// Once changes are taken in at time `t`, no change is taken in until the cooldown has
/// passed, while a time at least the cooldown later takes changes in again.
pub proof fn law_cooldown_after_changes(s: HotReloadState, t: u128, later: u128)
    requires
        s.last_reload == t,
        t <= later,
    ensures
        (later - t) / 1_000_000 < s.cooldown_ms ==> !takes_changes(&s, later),
        s.enabled && (later - t) / 1_000_000 >= s.cooldown_ms ==> takes_changes(&s, later),
{
}

impl Default for HotReloadState {
    fn default() -> (s: Self)
        ensures
            s.enabled,
            s.last_reload == 0,
            s.cooldown_ms == 500,
    {
        HotReloadState::new()
    }
}

/// The reloads for `event`, given for an asset change its path relative to the asset
/// directory (`stripped`, when it lies in it).
pub fn plan_reload(event: &HotReloadEvent, stripped: Option<String>) -> (r: Vec<ReloadAction>)
    ensures
        r@.map_values(|a: ReloadAction| a@) == reload_plan(
            event@,
            match stripped {
                Some(s) => Some(s@),
                None => None,
            },
        ),
{
    let mut r: Vec<ReloadAction> = Vec::new();
    match event {
        HotReloadEvent::LuaScriptChanged(p) => {
            if str_contains(p.as_str(), "main.lua") {
                r.push(ReloadAction::LoadMainScript);
            }
            if str_contains(p.as_str(), "config/") {
                r.push(ReloadAction::ReloadConfigs);
            }
        },
        HotReloadEvent::ConfigChanged(_) => {
            r.push(ReloadAction::ReloadConfigs);
        },
        HotReloadEvent::AssetChanged(p) => {
            match stripped {
                Some(s) => r.push(ReloadAction::ReloadAsset(s)),
                None => r.push(ReloadAction::ReloadAsset(p.clone())),
            }
        },
        HotReloadEvent::ManualReload => {
            r.push(ReloadAction::LoadMainScript);
            r.push(ReloadAction::ReloadConfigs);
        },
    }
    assert(r@.map_values(|a: ReloadAction| a@) =~= reload_plan(
        event@,
        match stripped {
            Some(s) => Some(s@),
            None => None,
        },
    ));
    r
}

/// The reloads for `event`, where `asset_dir` is the directory that asset paths are made
/// relative to.
pub fn reload_actions(event: &HotReloadEvent, asset_dir: &str) -> (r: Vec<ReloadAction>)
    ensures
        r@.map_values(|a: ReloadAction| a@) == reload_plan(
            event@,
            match event@ {
                HotReloadEventView::AssetChanged(p) => path_without_prefix(p, asset_dir@),
                _ => None,
            },
        ),
{
    let stripped = match event {
        HotReloadEvent::AssetChanged(p) => strip_path_prefix(p.as_str(), asset_dir),
        _ => None,
    };
    plan_reload(event, stripped)
}

} // verus!
