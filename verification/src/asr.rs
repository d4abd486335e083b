use vstd::prelude::*;
use crate::text::{owned, str_eq};

verus! {

/// Recognition engine: fast (SenseVoice-Small) or precise (Paraformer-Large).
#[derive(Debug, Clone, Copy, PartialEq, Eq, Structural)]
pub enum EngineType {
    Fast,
    Precise,
}

impl EngineType {
    /// `"precise"` selects the precise engine; anything else the fast one.
    pub fn from_str(s: &str) -> (r: Self)
        ensures
            r == engine_named(s@),
    {
        if str_eq(s, "precise") {
            EngineType::Precise
        } else {
            EngineType::Fast
        }
    }

    /// The model directory name of the engine.
    pub fn model_name(&self) -> (r: &'static str)
        ensures
            r@ == model_dir_name(*self),
    {
        match self {
            EngineType::Fast => "sense-voice-small",
            EngineType::Precise => "paraformer-large",
        }
    }
}

/// The engine a name selects: `"precise"` the precise one, anything else the fast one.
pub open spec fn engine_named(s: Seq<char>) -> EngineType {
    if s == "precise"@ {
        EngineType::Precise
    } else {
        EngineType::Fast
    }
}

pub open spec fn model_dir_name(t: EngineType) -> Seq<char> {
    match t {
        EngineType::Fast => "sense-voice-small"@,
        EngineType::Precise => "paraformer-large"@,
    }
}

/// What the recogniser answers when no model backend is built in.
pub open spec fn unavailable_text() -> Seq<char> {
    "[ASR engine not available - enable 'asr' feature and download models]"@
}

/// Speech recogniser handle. This build has no model backend: loading only
/// records that the engine is ready, and recognition answers a fixed notice.
pub struct AsrEngine {
    engine_type: EngineType,
    model_dir: String,
    loaded: bool,
}

impl View for AsrEngine {
    type V = (EngineType, Seq<char>, bool);

    /// Engine type, model directory, and whether `load` was called.
    closed spec fn view(&self) -> (EngineType, Seq<char>, bool) {
        (self.engine_type, self.model_dir@, self.loaded)
    }
}

impl AsrEngine {
    pub fn new(model_dir: &str, engine_type: EngineType) -> (r: Self)
        ensures
            r@ == (engine_type, model_dir@, false),
    {
        AsrEngine { engine_type, model_dir: owned(model_dir), loaded: false }
    }

    pub fn load(&mut self) -> (r: Result<(), String>)
        ensures
            r is Ok,
            final(self)@ == (old(self)@.0, old(self)@.1, true),
    {
        self.loaded = true;
        Ok(())
    }

    pub fn is_loaded(&self) -> (b: bool)
        ensures
            b == self@.2,
    {
        self.loaded
    }

    /// Recognises a chunk of 16-bit PCM samples.
    pub fn recognize(&self, samples: &[i16]) -> (r: Result<String, String>)
        ensures
            r matches Ok(t) && t@ == unavailable_text(),
    {
        Ok(owned("[ASR engine not available - enable 'asr' feature and download models]"))
    }

    pub fn engine_type(&self) -> (t: EngineType)
        ensures
            t == self@.0,
    {
        self.engine_type
    }
}

} // verus!
