//! The settings of the application.

use vstd::prelude::*;

use crate::dictionary::Pattern;

verus! {

/// How the waveform is resampled.
#[derive(Clone, Copy, Debug, PartialEq, Eq, Structural)]
pub enum ResamplingQuality {
    Fastest,
    Medium,
    High,
    Raw,
}

impl Default for ResamplingQuality {
    fn default() -> (q: Self)
        ensures
            q == ResamplingQuality::Medium,
    {
        ResamplingQuality::Medium
    }
}

/// A custom rule of the settings: `word` is read as `replace`.
#[derive(Clone, Debug)]
pub struct Word {
    pub word: String,
    pub replace: String,
}

/// Where a voice comes from.
#[derive(Clone, Copy, Debug, PartialEq, Eq, Structural)]
pub enum SlotType {
    ExternalDll,
    Internal,
}

impl Default for SlotType {
    fn default() -> (t: Self)
        ensures
            t == SlotType::ExternalDll,
    {
        SlotType::ExternalDll
    }
}

/// A voice: the DLL that holds it, its name and description.
#[derive(Clone, Debug)]
pub struct Slot {
    pub path: String,
    pub name: String,
    pub description: String,
    pub slot_type: SlotType,
}

/// The settings. Paths are kept as text.
#[derive(Clone, Debug)]
pub struct Settings {
    pub prefix: String,
    pub voices: Vec<Slot>,
    pub dictionary: Vec<Word>,
    pub export: String,
    pub format: String,
    pub external_dictionary: Vec<String>,
    pub delay: Option<i32>,
    pub oversample: Option<bool>,
    pub bouyomi: Option<bool>,
    pub resampling_quality: Option<ResamplingQuality>,
}

impl Default for Settings {
    fn default() -> (s: Self)
        ensures
            s.prefix@.len() == 0,
            s.voices@.len() == 0,
            s.dictionary@.len() == 0,
            s.export@.len() == 0,
            s.format@.len() == 0,
            s.external_dictionary@.len() == 0,
            s.delay is None,
            s.oversample is None,
            s.bouyomi is None,
            s.resampling_quality is None,
    {
        Settings {
            prefix: String::new(),
            voices: Vec::new(),
            dictionary: Vec::new(),
            export: String::new(),
            format: String::new(),
            external_dictionary: Vec::new(),
            delay: None,
            oversample: None,
            bouyomi: None,
            resampling_quality: None,
        }
    }
}

impl Settings {
    /// The custom rules of the settings as dictionary rules of priority 0.
    pub fn custom_patterns(&self) -> (v: Vec<Pattern<'_>>)
        ensures
            v@.len() == self.dictionary@.len(),
            forall|i: int|
                0 <= i < v@.len() ==> (#[trigger] v@[i]).priority == 0 && v@[i].from@
                    == self.dictionary@[i].word@ && v@[i].to@ == self.dictionary@[i].replace@,
    {
        let mut v: Vec<Pattern<'_>> = Vec::new();
        let mut i: usize = 0;
        while i < self.dictionary.len()
            invariant
                i <= self.dictionary@.len(),
                v@.len() == i,
                forall|j: int|
                    0 <= j < i ==> (#[trigger] v@[j]).priority == 0 && v@[j].from@
                        == self.dictionary@[j].word@ && v@[j].to@ == self.dictionary@[j].replace@,
            decreases self.dictionary@.len() - i,
        {
            let w = &self.dictionary[i];
            v.push(Pattern { priority: 0, from: w.word.as_str(), to: w.replace.as_str() });
            i = i + 1;
        }
        v
    }

    /// Whether readings are made in bouyomi mode (no accent marks); off
    /// unless the settings turn it on.
    pub fn bouyomi_mode(&self) -> (b: bool)
        ensures
            b == (self.bouyomi == Some(true)),
    {
        match self.bouyomi {
            Some(b) => b,
            None => false,
        }
    }
}

} // verus!
