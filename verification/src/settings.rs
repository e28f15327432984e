//! App-wide preferences and the defaults every stored record falls back to
//! when a field is missing from an older file.

use vstd::prelude::*;
use crate::message::{concat3, owned, str_eq};

verus! {

/// App-wide preferences, stored in `~/.easyalias/settings.json`.
#[derive(Clone, Debug)]
pub struct AppSettings {
    pub theme: String,
    pub hotkey_behavior: String,
    pub show_suggestions: bool,
    pub autostart: bool,
}

/// The one location all sunrise/sunset schedules share.
#[derive(Clone, Debug)]
pub struct SunLocationSetting {
    pub region: String,
}

/// A choice offered in the region list.
#[derive(Clone, Debug)]
pub struct SunRegionOption {
    pub value: String,
    pub label: String,
}

/// The trigger of a schedule stored before sunrise/sunset existed: a clock time.
pub fn default_trigger_kind() -> (r: String)
    ensures
        r@ == "clock"@,
{
    owned("clock")
}

/// Schedules are enabled unless stored otherwise.
pub fn default_true() -> (r: bool)
    ensures
        r,
{
    true
}

/// The region used before the user chose one.
pub fn default_sun_location() -> (r: SunLocationSetting)
    ensures
        r.region@ == "eu-central"@,
{
    SunLocationSetting { region: owned("eu-central") }
}

/// "system" follows the OS light/dark setting.
pub fn default_theme() -> (r: String)
    ensures
        r@ == "system"@,
{
    owned("system")
}

/// A hotkey brings EasyAlias forward and shows the run view by default.
pub fn default_hotkey_behavior() -> (r: String)
    ensures
        r@ == "window"@,
{
    owned("window")
}

/// The settings of a fresh installation.
pub fn default_app_settings() -> (r: AppSettings)
    ensures
        r.theme@ == "system"@,
        r.hotkey_behavior@ == "window"@,
        r.show_suggestions,
        !r.autostart,
{
    AppSettings {
        theme: default_theme(),
        hotkey_behavior: default_hotkey_behavior(),
        show_suggestions: true,
        autostart: false,
    }
}

pub open spec fn valid_theme(t: Seq<char>) -> bool {
    t == "system"@ || t == "light"@ || t == "dark"@
}

pub open spec fn valid_hotkey_behavior(h: Seq<char>) -> bool {
    h == "window"@ || h == "background"@
}

/// Why settings cannot be saved, if they cannot.
pub open spec fn app_settings_error(s: AppSettings) -> Option<Seq<char>> {
    if !valid_theme(s.theme@) {
        Some("\""@ + s.theme@ + "\" is not a valid theme."@)
    } else if !valid_hotkey_behavior(s.hotkey_behavior@) {
        Some("\""@ + s.hotkey_behavior@ + "\" is not a valid hotkey behavior."@)
    } else {
        None
    }
}

/// Accepts only the known themes ("system", "light", "dark") and hotkey
/// behaviors ("window", "background").
pub fn validate_app_settings(settings: &AppSettings) -> (r: Result<(), String>)
    ensures
        match r {
            Ok(()) => app_settings_error(*settings) is None,
            Err(e) => app_settings_error(*settings) == Some(e@),
        },
{
    let t = settings.theme.as_str();
    if !(str_eq(t, "system") || str_eq(t, "light") || str_eq(t, "dark")) {
        return Err(concat3("\"", t, "\" is not a valid theme."));
    }
    let h = settings.hotkey_behavior.as_str();
    if !(str_eq(h, "window") || str_eq(h, "background")) {
        return Err(concat3("\"", h, "\" is not a valid hotkey behavior."));
    }
    Ok(())
}

/// The region keys and their labels, in the order the picker lists them.
pub open spec fn sun_region_entry(i: int) -> (Seq<char>, Seq<char>) {
    if i == 0 {
        ("us-pacific"@, "US Pacific (Los Angeles)"@)
    } else if i == 1 {
        ("us-mountain"@, "US Mountain (Denver)"@)
    } else if i == 2 {
        ("us-central"@, "US Central (Chicago)"@)
    } else if i == 3 {
        ("us-eastern"@, "US Eastern (New York)"@)
    } else if i == 4 {
        ("uk-ireland"@, "UK & Ireland (London)"@)
    } else if i == 5 {
        ("eu-west"@, "EU West (Paris)"@)
    } else if i == 6 {
        ("eu-central"@, "EU Central (Berlin)"@)
    } else if i == 7 {
        ("eu-east"@, "EU East (Kyiv)"@)
    } else if i == 8 {
        ("asia-east"@, "East Asia (Tokyo)"@)
    } else if i == 9 {
        ("asia-south"@, "South Asia (Delhi)"@)
    } else {
        ("australia"@, "Australia (Sydney)"@)
    }
}

fn region_option(value: &str, label: &str) -> (r: SunRegionOption)
    ensures
        r.value@ == value@,
        r.label@ == label@,
{
    SunRegionOption { value: owned(value), label: owned(label) }
}

/// The sunrise/sunset regions the picker offers.
pub fn list_sun_regions() -> (r: Vec<SunRegionOption>)
    ensures
        r@.len() == 11,
        forall|i: int|
            0 <= i < 11 ==> (#[trigger] r@[i]).value@ == sun_region_entry(i).0 && r@[i].label@
                == sun_region_entry(i).1,
{
    let mut r: Vec<SunRegionOption> = Vec::new();
    r.push(region_option("us-pacific", "US Pacific (Los Angeles)"));
    r.push(region_option("us-mountain", "US Mountain (Denver)"));
    r.push(region_option("us-central", "US Central (Chicago)"));
    r.push(region_option("us-eastern", "US Eastern (New York)"));
    r.push(region_option("uk-ireland", "UK & Ireland (London)"));
    r.push(region_option("eu-west", "EU West (Paris)"));
    r.push(region_option("eu-central", "EU Central (Berlin)"));
    r.push(region_option("eu-east", "EU East (Kyiv)"));
    r.push(region_option("asia-east", "East Asia (Tokyo)"));
    r.push(region_option("asia-south", "South Asia (Delhi)"));
    r.push(region_option("australia", "Australia (Sydney)"));
    r
}


/// The themes in the order the settings step through them.
pub open spec fn theme_at(i: int) -> Seq<char> {
    if i == 0 {
        "system"@
    } else if i == 1 {
        "light"@
    } else {
        "dark"@
    }
}

/// Where a theme stands among the themes; an unknown one counts as the
/// first.
pub open spec fn theme_index(theme: Seq<char>) -> int {
    if theme == "light"@ {
        1
    } else if theme == "dark"@ {
        2
    } else {
        0
    }
}

/// The theme that the settings switch to, forward or back through the
/// ring of themes.
pub fn cycled_theme(theme: &str, forward: bool) -> (r: String)
    ensures
        r@ == theme_at(
            if forward {
                crate::tui_keys::next_of(theme_index(theme@), 3)
            } else {
                crate::tui_keys::previous_of(theme_index(theme@), 3)
            },
        ),
{
    let current: usize = if str_eq(theme, "light") {
        1
    } else if str_eq(theme, "dark") {
        2
    } else {
        0
    };
    let next = crate::tui_keys::cycle(current, 3, forward);
    owned(if next == 0 {
        "system"
    } else if next == 1 {
        "light"
    } else {
        "dark"
    })
}

/// Where a region first stands in the picker from position `i` on; an
/// unknown one counts as the first.
pub open spec fn region_index_from(region: Seq<char>, i: int) -> int
    decreases 11 - i,
{
    if i >= 11 || i < 0 {
        0
    } else if sun_region_entry(i).0 == region {
        i
    } else {
        region_index_from(region, i + 1)
    }
}

/// Where a region stands in the picker; an unknown one counts as the first.
pub open spec fn region_index(region: Seq<char>) -> int {
    region_index_from(region, 0)
}

proof fn lemma_region_index_from(region: Seq<char>, i: int)
    requires
        0 <= i <= 11,
        forall|k: int| 0 <= k < i ==> sun_region_entry(k).0 != region,
    ensures
        region_index(region) == region_index_from(region, i),
    decreases i,
{
    if i > 0 {
        lemma_region_index_from(region, i - 1);
    }
}

/// The sunrise/sunset region that the settings switch to, forward or back
/// through the picker's regions.
pub fn cycled_sun_region(region: &str, forward: bool) -> (r: String)
    ensures
        r@ == sun_region_entry(
            if forward {
                crate::tui_keys::next_of(region_index(region@), 11)
            } else {
                crate::tui_keys::previous_of(region_index(region@), 11)
            },
        ).0,
{
    let regions = list_sun_regions();
    let mut current: usize = 0;
    let mut i: usize = 0;
    let mut found = false;
    while i < 11 && !found
        invariant
            i <= 11,
            regions@.len() == 11,
            forall|k: int|
                0 <= k < 11 ==> (#[trigger] regions@[k]).value@ == sun_region_entry(k).0,
            forall|k: int| 0 <= k < i ==> sun_region_entry(k).0 != region@,
            found ==> i < 11 && sun_region_entry(i as int).0 == region@ && current == i,
            !found ==> current == 0,
        decreases 11 - i, (if found { 0int } else { 1int }),
    {
        if str_eq(regions[i].value.as_str(), region) {
            current = i;
            found = true;
        } else {
            i = i + 1;
        }
    }
    proof {
        lemma_region_index_from(region@, i as int);
    }
    let next = crate::tui_keys::cycle(current, 11, forward);
    owned(regions[next].value.as_str())
}

} // verus!
