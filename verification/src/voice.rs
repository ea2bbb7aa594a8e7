use vstd::prelude::*;

verus! {

/// How challenges are worded to the project.
#[derive(Clone, Copy, Debug, PartialEq, Eq)]
pub enum Voice {
    Neutral,
    Blunt,
}

impl Voice {
    pub open spec fn word_view(self) -> Seq<char> {
        match self {
            Voice::Neutral => "neutral"@,
            Voice::Blunt => "blunt"@,
        }
    }

    /// The voice's name in the manifest.
    pub fn word(self) -> (w: &'static str)
        ensures
            w@ == self.word_view(),
    {
        match self {
            Voice::Neutral => "neutral",
            Voice::Blunt => "blunt",
        }
    }

    /// The voice a manifest names, if it names one.
    pub fn parse(name: &str) -> (v: Option<Voice>)
        ensures
            v == voice_named(name@),
    {
        if crate::text::str_eq(name, "neutral") {
            Some(Voice::Neutral)
        } else if crate::text::str_eq(name, "blunt") {
            Some(Voice::Blunt)
        } else {
            None
        }
    }

    /// The voice a project uses when its manifest names none.
    pub fn default_voice() -> (v: Voice)
        ensures
            v == Voice::Neutral,
    {
        Voice::Neutral
    }
}

/// A voice's word names that voice: parsing what `word` writes gives the voice back.
pub proof fn law_voice_word_parses_back(v: Voice)
    ensures
        voice_named(v.word_view()) == Some(v),
{
    reveal_strlit("neutral");
    reveal_strlit("blunt");
    assert("neutral"@[0] != "blunt"@[0]);
}

/// The voice called `name`.
pub open spec fn voice_named(name: Seq<char>) -> Option<Voice> {
    if name == "neutral"@ {
        Some(Voice::Neutral)
    } else if name == "blunt"@ {
        Some(Voice::Blunt)
    } else {
        None
    }
}

/// The names of the voices, as the manifest's refusals list them.
pub open spec fn voices_text() -> Seq<char> {
    "neutral, blunt"@
}

/// The names of the voices, separated by commas.
pub fn voice_names() -> (names: &'static str)
    ensures
        names@ == voices_text(),
{
    "neutral, blunt"
}

} // verus!
