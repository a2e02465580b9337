//! Voice presets and the numbers the application derives from them.

use vstd::prelude::*;

use crate::RiamifyError;

verus! {

/// A voice preset: which voice, how fast, at which pitch, with how much
/// trailing silence.
#[derive(Clone, Debug)]
pub struct Preset {
    pub name: String,
    pub speed: i32,
    pub pitch: i32,
    pub slot: usize,
    pub delay: i32,
    pub description: String,
}

/// The list of presets.
#[derive(Clone, Debug)]
pub struct Presets {
    pub presets: Vec<Preset>,
}

impl Default for Presets {
    fn default() -> (p: Self)
        ensures
            p.presets@.len() == 0,
    {
        Presets { presets: Vec::new() }
    }
}

impl Presets {
    /// The number of presets.
    pub fn len(&self) -> (n: usize)
        ensures
            n == self.presets@.len(),
    {
        self.presets.len()
    }

    /// Whether there is no preset.
    pub fn is_empty(&self) -> (b: bool)
        ensures
            b == (self.presets@.len() == 0),
    {
        self.presets.len() == 0
    }

    /// The name of preset `id`; empty when there is no such preset.
    pub fn name(&self, id: usize) -> (s: &str)
        ensures
            s@ == if id < self.presets@.len() {
                self.presets@[id as int].name@
            } else {
                ""@
            },
    {
        if id < self.presets.len() {
            self.presets[id].name.as_str()
        } else {
            ""
        }
    }

    /// The preset chosen after asking for `id` while `current` is chosen:
    /// `id` when it is below the number of presets (taken as an `i32`),
    /// else `current`.
    pub fn select(&self, current: i32, id: i32) -> (r: i32)
        ensures
            r == if id < (self.presets@.len() as i32) {
                id
            } else {
                current
            },
    {
        if id < (self.presets.len() as i32) {
            id
        } else {
            current
        }
    }
}

/// The speed handed to the speech engine: the preset's speed scaled by the
/// application's speed in percent.
pub fn effective_speed(preset_speed: i32, app_speed: i32) -> (s: i32)
    requires
        i32::MIN <= preset_speed * app_speed <= i32::MAX,
    ensures
        s == truncated_div(preset_speed * app_speed, 100),
{
    let p = preset_speed * app_speed;
    p / 100
}

/// Integer division rounding toward zero, as Rust's `/` does.
pub open spec fn truncated_div(a: int, b: int) -> int
    recommends
        b > 0,
{
    if a >= 0 {
        a / b
    } else {
        -((-a) / b)
    }
}

/// The trailing silence in samples: the settings' delay (22050 samples when
/// unset) plus the preset's.
pub fn total_delay(settings_delay: Option<i32>, preset_delay: i32) -> (d: i32)
    requires
        i32::MIN <= (match settings_delay {
            Some(v) => v as int,
            None => 22050,
        }) + preset_delay <= i32::MAX,
    ensures
        d == (match settings_delay {
            Some(v) => v as int,
            None => 22050,
        }) + preset_delay,
{
    let base = match settings_delay {
        Some(v) => v,
        None => 22050,
    };
    base + preset_delay
}

/// `url::Url::from_file_path` followed by `Url::into_string`. The URL
/// depends on the target's path rules (Unix and Windows paths differ), so
/// the contract does not name it; it claims that a URL it makes starts with
/// `file://`, as the source writes that scheme and separator first. The
/// crate documents that it refuses relative paths.
#[verifier::external_body]
fn url_from_file_path(path: &str) -> (r: Option<String>)
    ensures
        r matches Some(u) ==> u@.take(7) == "file://"@,
{
    url::Url::from_file_path(path).ok().map(|u| u.into_string())
}

/// The URL of an exported file at the absolute path `path`; an internal
/// error when no URL can be made of it.
pub fn file_uri(path: &str) -> (r: Result<String, RiamifyError>)
    ensures
        match r {
            Ok(s) => s@.take(7) == "file://"@,
            Err(e) => e is InternalError,
        },
{
    match url_from_file_path(path) {
        Some(u) => Ok(u),
        None => Err(RiamifyError::InternalError),
    }
}

} // verus!
