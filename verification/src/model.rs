//! Which transcription model file serves a language: sizes, language
//! variants, and the file name they resolve to. Fetching and validating the
//! file on disk is the binary's work.
use vstd::prelude::*;

verus! {

use vstd::string::StringExecFns;

#[derive(Debug, Copy, Clone, PartialEq, Eq, Structural)]
pub enum ModelSize {
    Auto,
    Tiny,
    Base,
    Small,
    Medium,
    Large,
}

#[derive(Debug, Copy, Clone, PartialEq, Eq, Structural)]
pub enum ModelLanguage {
    Auto,
    En,
}

/// What `Auto` stands for: the small model.
pub open spec fn spec_resolved(s: ModelSize) -> ModelSize {
    match s {
        ModelSize::Auto => ModelSize::Small,
        other => other,
    }
}

/// The token naming a size inside a model file name and in events.
pub open spec fn spec_size_token(s: ModelSize) -> Seq<char> {
    match s {
        ModelSize::Auto => "small"@,
        ModelSize::Tiny => "tiny"@,
        ModelSize::Base => "base"@,
        ModelSize::Small => "small"@,
        ModelSize::Medium => "medium"@,
        ModelSize::Large => "large"@,
    }
}

pub open spec fn spec_language_token(l: ModelLanguage) -> Seq<char> {
    match l {
        ModelLanguage::Auto => "auto"@,
        ModelLanguage::En => "en"@,
    }
}

impl ModelSize {
    pub fn resolved(self) -> (r: ModelSize)
        ensures
            r == spec_resolved(self),
    {
        match self {
            ModelSize::Auto => ModelSize::Small,
            other => other,
        }
    }

    pub fn as_str(self) -> (r: &'static str)
        ensures
            r@ == spec_size_token(self),
    {
        match self {
            ModelSize::Auto => "small",
            ModelSize::Tiny => "tiny",
            ModelSize::Base => "base",
            ModelSize::Small => "small",
            ModelSize::Medium => "medium",
            ModelSize::Large => "large",
        }
    }
}

/// The size token carried inside `ModelLoaded` events.
pub fn model_size_token(size: ModelSize) -> (r: &'static str)
    ensures
        r@ == spec_size_token(size),
{
    size.as_str()
}

/// The language-variant token carried inside `ModelLoaded` events.
pub fn model_language_token(model_language: ModelLanguage) -> (r: &'static str)
    ensures
        r@ == spec_language_token(model_language),
{
    match model_language {
        ModelLanguage::Auto => "auto",
        ModelLanguage::En => "en",
    }
}

/// The model variant a language code selects: the English-only variant for
/// `en`, the multilingual one for everything else.
pub fn model_language_for_transcription(language: &str) -> (r: ModelLanguage)
    ensures
        r == if language@ == "en"@ {
            ModelLanguage::En
        } else {
            ModelLanguage::Auto
        },
{
    if crate::text::str_eq(language, "en") {
        ModelLanguage::En
    } else {
        ModelLanguage::Auto
    }
}

#[derive(Debug, Copy, Clone)]
pub struct ModelSpec {
    pub size: ModelSize,
    pub language: ModelLanguage,
}

/// The file name a model spec resolves to: `ggml-<size>.bin`, with an `.en`
/// infix for the English-only variant.
pub open spec fn spec_filename(s: ModelSpec) -> Seq<char> {
    "ggml-"@ + spec_size_token(spec_resolved(s.size)) + (match s.language {
        ModelLanguage::Auto => ".bin"@,
        ModelLanguage::En => ".en.bin"@,
    })
}

impl ModelSpec {
    pub fn new(size: ModelSize, language: ModelLanguage) -> (r: ModelSpec)
        ensures
            r == (ModelSpec { size, language }),
    {
        ModelSpec { size, language }
    }

    pub fn filename(&self) -> (r: String)
        ensures
            r@ == spec_filename(*self),
    {
        let mut out: String = "ggml-".to_owned();
        out.append(self.size.resolved().as_str());
        match self.language {
            ModelLanguage::Auto => out.append(".bin"),
            ModelLanguage::En => out.append(".en.bin"),
        }
        proof {
            assert(out@ =~= spec_filename(*self));
        }
        out
    }
}

/// The path a model resolves to: the explicit path when one is given, else
/// the file name under the model directory.
pub fn resolve_model_path(explicit_path: Option<&str>, model_dir: &str, spec: &ModelSpec) -> (r:
    String)
    ensures
        match explicit_path {
            Option::Some(p) => r@ == p@,
            Option::None => r@ == model_dir@ + "/"@ + spec_filename(*spec),
        },
{
    match explicit_path {
        Option::Some(p) => p.to_owned(),
        Option::None => {
            let mut out: String = model_dir.to_owned();
            out.append("/");
            let name = spec.filename();
            out.append(name.as_str());
            proof {
                assert(out@ =~= model_dir@ + "/"@ + spec_filename(*spec));
            }
            out
        },
    }
}

} // verus!
