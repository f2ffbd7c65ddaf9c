//! The coordinator: the daemon's recording state machine, its per-language
//! model pool, and the handling of one control message at a time. Sockets,
//! signals, audio capture and the transcription engine reach it only through
//! the `DaemonPlatform` capability trait, which the surrounding binary (or a
//! test double) implements.
use vstd::prelude::*;

verus! {

use vstd::string::StringExecFns;
use crate::audio::VadConfig;
use crate::audio::AudioError;
use crate::audio::trim_spec;
use crate::error::AppError;
use crate::ipc::ControlResponse;
use crate::ipc::DaemonEventType;
use crate::model::ModelSpec;
use crate::text::normalize_spec;
use crate::types::AudioHost;
use crate::types::OutputFormat;
use crate::types::OutputMode;
use crate::types::VadMode;

/// Everything the daemon is configured with. The voice-activity threshold is
/// an RMS level in absolute 16-bit sample units.
#[derive(Debug, Clone)]
pub struct DaemonConfig {
    pub download_model: bool,
    pub language: String,
    pub model_pool_languages: Vec<String>,
    pub device: Option<String>,
    pub audio_host: AudioHost,
    pub sample_rate: u32,
    pub format: OutputFormat,
    pub mode: OutputMode,
    pub vad: VadMode,
    pub vad_silence_ms: u64,
    pub vad_threshold: u16,
    pub vad_chunk_ms: u64,
    pub debug_audio: bool,
    pub debug_vad: bool,
    pub dump_audio: bool,
}

/// One decoded control command on its way to the coordinator.
#[derive(Debug, Clone, PartialEq, Eq)]
pub enum ControlEvent {
    Toggle { language: Option<String> },
    Status,
    SetLanguage { language: String },
    Stop,
    Error(String),
}

/// A control event together with the token the listener uses to route the
/// reply back to the waiting connection.
#[derive(Debug)]
pub struct ControlMessage {
    pub event: ControlEvent,
    pub reply: Option<u64>,
}

/// A loaded engine as the platform reports it: an opaque handle plus the
/// size and variant tokens for the `model_loaded` event.
pub struct LoadedModel {
    pub engine: u64,
    pub model_size: String,
    pub model_language: String,
}

/// One cached model: the language that keys it, the engine handle, and the
/// metadata of the file behind it.
pub struct ModelPoolEntry {
    pub language: String,
    pub engine: u64,
    pub model_size: String,
    pub model_language: String,
}

/// The per-language cache of loaded engines. Entries are never evicted, and
/// no language appears twice.
pub struct ModelPool {
    pub entries: Vec<ModelPoolEntry>,
}

/// No two entries share a language.
pub open spec fn pool_wf(p: ModelPool) -> bool {
    forall|i: int, j: int|
        0 <= i < j < p.entries@.len() ==> p.entries@[i].language@ != p.entries@[j].language@
}

/// The set of languages the pool holds a model for.
pub open spec fn pool_languages(p: ModelPool) -> Set<Seq<char>> {
    Set::new(|lang: Seq<char>| exists|i: int|
        0 <= i < p.entries@.len() && p.entries@[i].language@ == lang)
}

/// The index of the entry for `lang` among the first `upto` entries.
pub open spec fn spec_pool_find(entries: Seq<ModelPoolEntry>, lang: Seq<char>, upto: int) -> Option<
    int,
>
    decreases upto,
{
    if upto <= 0 {
        Option::None
    } else {
        match spec_pool_find(entries, lang, upto - 1) {
            Option::Some(i) => Option::Some(i),
            Option::None => {
                if entries[upto - 1].language@ == lang {
                    Option::Some(upto - 1)
                } else {
                    Option::None
                }
            },
        }
    }
}

proof fn lemma_pool_find_some(entries: Seq<ModelPoolEntry>, lang: Seq<char>, upto: int)
    requires
        0 <= upto <= entries.len(),
    ensures
        match spec_pool_find(entries, lang, upto) {
            Option::Some(i) => 0 <= i < upto && entries[i].language@ == lang,
            Option::None => forall|i: int| 0 <= i < upto ==> entries[i].language@ != lang,
        },
    decreases upto,
{
    if upto > 0 {
        lemma_pool_find_some(entries, lang, upto - 1);
    }
}

impl ModelPool {
    pub fn new() -> (r: ModelPool)
        ensures
            r.entries@.len() == 0,
            pool_wf(r),
            pool_languages(r) =~= Set::<Seq<char>>::empty(),
    {
        ModelPool { entries: Vec::new() }
    }

    /// The entry index for a language, when one is cached.
    pub fn find(&self, language: &str) -> (r: Option<usize>)
        ensures
            match r {
                Option::Some(i) => i < self.entries@.len() && self.entries@[i as int].language@
                    == language@,
                Option::None => !pool_languages(*self).contains(language@),
            },
    {
        proof {
            lemma_pool_find_some(self.entries@, language@, self.entries@.len() as int);
        }
        let mut idx: usize = 0;
        while idx < self.entries.len()
            invariant
                idx <= self.entries@.len(),
                spec_pool_find(self.entries@, language@, idx as int) is None,
            decreases self.entries@.len() - idx,
        {
            if crate::text::str_eq(self.entries[idx].language.as_str(), language) {
                return Option::Some(idx);
            }
            idx = idx + 1;
        }
        proof {
            assert(!pool_languages(*self).contains(language@));
        }
        Option::None
    }

    /// Whether a model for this language is cached.
    pub fn contains_language(&self, language: &str) -> (r: bool)
        ensures
            r == pool_languages(*self).contains(language@),
    {
        match self.find(language) {
            Option::Some(_) => {
                proof {
                    assert(pool_languages(*self).contains(language@));
                }
                true
            },
            Option::None => false,
        }
    }

    /// Caches a freshly loaded model under its language.
    pub fn insert(&mut self, entry: ModelPoolEntry)
        requires
            pool_wf(*old(self)),
            !pool_languages(*old(self)).contains(entry.language@),
        ensures
            final(self).entries@ == old(self).entries@.push(entry),
            pool_wf(*final(self)),
            pool_languages(*final(self)) =~= pool_languages(*old(self)).insert(entry.language@),
    {
        self.entries.push(entry);
        proof {
            assert forall|i: int, j: int|
                0 <= i < j < self.entries@.len() implies self.entries@[i].language@
                != self.entries@[j].language@ by {
                if j < self.entries@.len() - 1 {
                } else {
                    assert(pool_languages(*old(self)).contains(old(self).entries@[i].language@));
                }
            }
            assert forall|lang: Seq<char>|
                pool_languages(*self).contains(lang) == pool_languages(*old(self)).insert(
                    entry.language@,
                ).contains(lang) by {
                let n = old(self).entries@.len() as int;
                if pool_languages(*old(self)).contains(lang) {
                    let i = choose|i: int|
                        0 <= i < old(self).entries@.len() && old(self).entries@[i].language@
                            == lang;
                    assert(self.entries@[i].language@ == lang);
                }
                if lang == entry.language@ {
                    assert(self.entries@[n].language@ == lang);
                }
                if pool_languages(*self).contains(lang) {
                    let i = choose|i: int|
                        0 <= i < self.entries@.len() && self.entries@[i].language@ == lang;
                    if i < n {
                        assert(old(self).entries@[i].language@ == lang);
                    }
                }
            }
            assert(pool_languages(*self) =~= pool_languages(*old(self)).insert(entry.language@));
        }
    }

    /// The engine handle cached for a language.
    pub fn transcriber_for(&self, language: &str) -> (r: Option<u64>)
        ensures
            match r {
                Option::Some(engine) => exists|i: int|
                    0 <= i < self.entries@.len() && self.entries@[i].language@ == language@
                        && self.entries@[i].engine == engine,
                Option::None => !pool_languages(*self).contains(language@),
            },
    {
        match self.find(language) {
            Option::Some(i) => Option::Some(self.entries[i].engine),
            Option::None => Option::None,
        }
    }

    /// The size and variant tokens cached for a language.
    pub fn metadata_for(&self, language: &str) -> (r: Option<(String, String)>)
        ensures
            match r {
                Option::Some(meta) => exists|i: int|
                    0 <= i < self.entries@.len() && self.entries@[i].language@ == language@
                        && self.entries@[i].model_size@ == meta.0@ && self.entries@[
                        i
                    ].model_language@ == meta.1@,
                Option::None => !pool_languages(*self).contains(language@),
            },
    {
        match self.find(language) {
            Option::Some(i) => {
                let size = self.entries[i].model_size.clone();
                let variant = self.entries[i].model_language.clone();
                Option::Some((size, variant))
            },
            Option::None => Option::None,
        }
    }
}

/// The ghost image of the daemon: what the laws below quantify over.
pub struct DaemonModel {
    pub recording: bool,
    pub language: Seq<char>,
    pub buffer: Seq<i16>,
    pub utterance: nat,
    pub shutdown: bool,
    pub loaded: Set<Seq<char>>,
}

/// The recording state machine: Idle or Recording, an active normalized
/// language, the sample accumulation buffer, the utterance counter and the
/// shutdown flag, together with the model pool. Only the coordinator thread
/// holds it.
pub struct Daemon {
    pub recording: bool,
    pub active_language: String,
    pub buffer: Vec<i16>,
    pub utterance_index: u64,
    pub shutdown: bool,
    pub pool: ModelPool,
}

impl View for Daemon {
    type V = DaemonModel;

    open spec fn view(&self) -> DaemonModel {
        DaemonModel {
            recording: self.recording,
            language: self.active_language@,
            buffer: self.buffer@,
            utterance: self.utterance_index as nat,
            shutdown: self.shutdown,
            loaded: pool_languages(self.pool),
        }
    }
}

/// A daemon whose pool is well formed and whose active language is in
/// normalized form.
pub open spec fn daemon_wf(d: Daemon) -> bool {
    &&& pool_wf(d.pool)
    &&& d.active_language@ == normalize_spec(d.active_language@)
}

/// What the daemon asks of its surroundings: loading engines, running the
/// capture stream, transcribing, and writing output. The binary implements
/// it with the real backends; tests implement it with doubles. Nothing is
/// assumed about these methods: every contract of the daemon holds whatever
/// they return.
pub trait DaemonPlatform {
    /// Loads the engine behind a model spec; may download when allowed.
    fn load_model(&mut self, spec: &ModelSpec, allow_download: bool) -> Result<LoadedModel, String>;

    /// Opens the capture stream on the configured device.
    fn start_capture(&mut self, device: &Option<String>, sample_rate: u32) -> Result<
        (),
        AudioError,
    >;

    /// Appends every sample the stream has produced since the last drain.
    fn drain_capture(&mut self, out: &mut Vec<i16>);

    /// Closes the capture stream.
    fn stop_capture(&mut self);

    /// Samples in, text out; can fail.
    fn transcribe(&mut self, engine: u64, samples: &Vec<i16>, language: &str) -> Result<
        String,
        String,
    >;

    /// Hands a finished transcript to the configured output (stdout or
    /// injection).
    fn deliver_transcript(&mut self, text: &str, info: crate::audio::SegmentInfo);

    /// A status line for the operator.
    fn output_line(&mut self, line: &str);
}

/// The ghost image of one daemon event, timestamps aside.
pub enum EventModel {
    Ready,
    Started { language: Seq<char> },
    Stopped { language: Seq<char> },
    Transcript { language: Seq<char>, utterance: nat, duration_ms: nat, text: Seq<char> },
    Loaded { language: Seq<char>, model_size: Seq<char>, model_language: Seq<char> },
    Failed { message: Seq<char> },
}

pub open spec fn event_model(e: DaemonEventType) -> EventModel {
    match e {
        DaemonEventType::DaemonReady => EventModel::Ready,
        DaemonEventType::RecordingStarted { language } => EventModel::Started {
            language: language@,
        },
        DaemonEventType::RecordingStopped { language } => EventModel::Stopped {
            language: language@,
        },
        DaemonEventType::TranscriptFinal { language, utterance, duration_ms, text } => EventModel::Transcript {
            language: language@,
            utterance: utterance as nat,
            duration_ms: duration_ms as nat,
            text: text@,
        },
        DaemonEventType::ModelLoaded { language, model_size, model_language } => EventModel::Loaded {
            language: language@,
            model_size: model_size@,
            model_language: model_language@,
        },
        DaemonEventType::Error { message } => EventModel::Failed { message: message@ },
    }
}

pub open spec fn events_model(es: Seq<DaemonEventType>) -> Seq<EventModel> {
    Seq::new(es.len(), |i: int| event_model(es[i]))
}

/// `"recording"` or `"idle"`.
pub open spec fn spec_state_label(m: DaemonModel) -> Seq<char> {
    if m.recording {
        "recording"@
    } else {
        "idle"@
    }
}

/// The state after a language switch: the active language changes, the pool
/// gains the language when it was freshly loaded, and nothing else moves.
pub open spec fn spec_set_language(m: DaemonModel, norm: Seq<char>, fresh: bool) -> DaemonModel {
    DaemonModel {
        language: norm,
        loaded: if fresh {
            m.loaded.insert(norm)
        } else {
            m.loaded
        },
        ..m
    }
}

/// The state after recording starts: the buffer is reset.
pub open spec fn spec_start_recording(m: DaemonModel) -> DaemonModel {
    DaemonModel { recording: true, buffer: Seq::empty(), ..m }
}

/// The state after a recording is finalized: idle, buffer consumed, the
/// utterance counter advanced exactly when the trimmed utterance was
/// non-empty.
pub open spec fn spec_finish_recording(m: DaemonModel, rate: u32, vad: VadConfig) -> DaemonModel {
    DaemonModel {
        recording: false,
        buffer: Seq::empty(),
        utterance: if trim_spec(m.buffer, rate, vad).len() == 0 {
            m.utterance
        } else {
            m.utterance + 1
        },
        ..m
    }
}

/// The events a finalized recording broadcasts, given what the engine
/// returned: a final transcript (or an error report) for a non-empty trimmed
/// utterance, always followed by the stop notice.
pub open spec fn spec_finish_events(
    language: Seq<char>,
    trimmed: Seq<i16>,
    next_index: nat,
    rate: u32,
    transcript: Result<Seq<char>, Seq<char>>,
) -> Seq<EventModel> {
    if trimmed.len() == 0 {
        seq![EventModel::Stopped { language }]
    } else {
        match transcript {
            Result::Ok(text) => seq![
                EventModel::Transcript {
                    language,
                    utterance: next_index,
                    duration_ms: crate::audio::spec_ms_u64(trimmed.len(), rate as nat),
                    text,
                },
                EventModel::Stopped { language },
            ],
            Result::Err(message) => seq![
                EventModel::Failed { message },
                EventModel::Stopped { language },
            ],
        }
    }
}

/// Whether a toggle's optional language is already cached (vacuously so
/// when none is asked for).
pub open spec fn toggle_lang_ready(m: DaemonModel, lang_opt: Option<String>) -> bool {
    match lang_opt {
        Option::None => true,
        Option::Some(l) => m.loaded.contains(normalize_spec(l@)),
    }
}

/// What a toggle that freshly loads a language and stops a recording
/// broadcasts: the `model_loaded` event, then the finalization events.
pub open spec fn spec_loaded_then_finish_events(
    norm: Seq<char>,
    model_size: Seq<char>,
    model_language: Seq<char>,
    trimmed: Seq<i16>,
    next_index: nat,
    rate: u32,
    transcript: Result<Seq<char>, Seq<char>>,
) -> Seq<EventModel> {
    seq![EventModel::Loaded { language: norm, model_size, model_language }] + spec_finish_events(
        norm,
        trimmed,
        next_index,
        rate,
        transcript,
    )
}

/// How many final transcripts a list of events carries.
pub open spec fn count_transcripts(es: Seq<EventModel>) -> nat
    decreases es.len(),
{
    if es.len() == 0 {
        0
    } else {
        count_transcripts(es.drop_last()) + (if es.last() is Transcript {
            1nat
        } else {
            0nat
        })
    }
}

/// A successful response carrying a state label and language.
pub fn control_ok_response(state: &str, language: &str) -> (r: ControlResponse)
    ensures
        r.ok == true,
        r.api_version@ == "1"@,
        r.state matches Some(s) && s@ == state@,
        r.language matches Some(l) && l@ == language@,
        r.error is None,
        r.message is None,
{
    ControlResponse::ok(Option::Some(state.to_owned()), Option::Some(language.to_owned()))
}

/// A failed response carrying an error code and message.
pub fn control_error_response(error: &str, message: String) -> (r: ControlResponse)
    ensures
        r.ok == false,
        r.api_version@ == "1"@,
        r.error matches Some(e) && e@ == error@,
        r.message matches Some(m) && m@ == message@,
        r.state is None,
        r.language is None,
{
    ControlResponse::error(error, message)
}

impl Daemon {
    /// A fresh daemon: idle, nothing loaded, the configured language active
    /// in normalized form.
    pub fn new(config: &DaemonConfig) -> (d: Daemon)
        ensures
            daemon_wf(d),
            d@.recording == false,
            d@.language == normalize_spec(config.language@),
            d@.buffer.len() == 0,
            d@.utterance == 0,
            d@.shutdown == false,
            d@.loaded =~= Set::<Seq<char>>::empty(),
    {
        let active = crate::text::normalize_language(config.language.as_str());
        proof {
            crate::text::lemma_normalize_idempotent(config.language@);
        }
        Daemon {
            recording: false,
            active_language: active,
            buffer: Vec::new(),
            utterance_index: 0,
            shutdown: false,
            pool: ModelPool::new(),
        }
    }

    /// The current state label.
    pub fn state_label(&self) -> (r: &'static str)
        ensures
            r@ == spec_state_label(self@),
    {
        if self.recording {
            "recording"
        } else {
            "idle"
        }
    }

    /// The pure read that `status` performs: ok, the state label, and the
    /// active language; no transition.
    pub fn status_response(&self) -> (r: ControlResponse)
        ensures
            r.ok == true,
            r.api_version@ == "1"@,
            r.state matches Some(s) && s@ == spec_state_label(self@),
            r.language matches Some(l) && l@ == self@.language,
            r.error is None,
            r.message is None,
    {
        control_ok_response(self.state_label(), self.active_language.as_str())
    }

    /// Caches a freshly loaded engine under its (normalized) language.
    pub fn install_model(&mut self, language: String, loaded: LoadedModel)
        requires
            daemon_wf(*old(self)),
            !old(self)@.loaded.contains(language@),
        ensures
            daemon_wf(*final(self)),
            final(self)@ == (DaemonModel {
                loaded: old(self)@.loaded.insert(language@),
                ..old(self)@
            }),
            final(self).recording == old(self).recording,
            final(self).active_language == old(self).active_language,
            final(self).buffer == old(self).buffer,
            final(self).utterance_index == old(self).utterance_index,
            final(self).shutdown == old(self).shutdown,
            pool_languages(final(self).pool).contains(language@),
    {
        let entry = ModelPoolEntry {
            language,
            engine: loaded.engine,
            model_size: loaded.model_size,
            model_language: loaded.model_language,
        };
        self.pool.insert(entry);
    }

    /// Switches the active-language pointer; recording is unaffected.
    pub fn set_active(&mut self, normalized: String)
        requires
            daemon_wf(*old(self)),
            normalized@ == normalize_spec(normalized@),
        ensures
            daemon_wf(*final(self)),
            final(self)@ == (DaemonModel { language: normalized@, ..old(self)@ }),
    {
        self.active_language = normalized;
    }

    /// Consumes the accumulation buffer: trims trailing silence, leaves the
    /// daemon idle, and hands back the non-empty utterance with its index
    /// and duration, or nothing when only silence was recorded.
    pub fn begin_finalize(&mut self, sample_rate: u32, vad: &VadConfig) -> (u: Option<
        (Vec<i16>, u64, u64),
    >)
        requires
            daemon_wf(*old(self)),
            old(self)@.recording,
            old(self)@.utterance < u64::MAX,
        ensures
            daemon_wf(*final(self)),
            final(self)@ == spec_finish_recording(old(self)@, sample_rate, *vad),
            final(self).active_language == old(self).active_language,
            final(self).shutdown == old(self).shutdown,
            match u {
                Option::None => trim_spec(old(self)@.buffer, sample_rate, *vad).len() == 0,
                Option::Some(utt) => {
                    &&& utt.0@ == trim_spec(old(self)@.buffer, sample_rate, *vad)
                    &&& utt.0@.len() > 0
                    &&& utt.1 == old(self)@.utterance + 1
                    &&& utt.2 == crate::audio::spec_ms_u64(utt.0@.len(), sample_rate as nat)
                },
            },
    {
        let trimmed = crate::audio::trim_trailing_silence(
            self.buffer.as_slice(),
            sample_rate,
            vad,
        );
        self.recording = false;
        self.buffer = Vec::new();
        if trimmed.len() == 0 {
            Option::None
        } else {
            self.utterance_index = self.utterance_index + 1;
            let duration_ms = crate::audio::samples_to_ms(trimmed.len(), sample_rate);
            let index = self.utterance_index;
            Option::Some((trimmed, index, duration_ms))
        }
    }

    /// Normalizes `language`, loads its model when absent (a fresh load
    /// broadcasts one `model_loaded` event), and makes it active. A failed
    /// load leaves the daemon untouched; with the model already cached no
    /// load happens and the switch always succeeds.
    pub fn apply_language<P: DaemonPlatform>(
        &mut self,
        platform: &mut P,
        config: &DaemonConfig,
        language: &str,
    ) -> (r: Result<Vec<DaemonEventType>, AppError>)
        requires
            daemon_wf(*old(self)),
        ensures
            daemon_wf(*final(self)),
            old(self)@.loaded.contains(normalize_spec(language@)) ==> r is Ok,
            match r {
                Result::Ok(events) => {
                    let norm = normalize_spec(language@);
                    let fresh = !old(self)@.loaded.contains(norm);
                    &&& final(self)@ == spec_set_language(old(self)@, norm, fresh)
                    &&& final(self)@.loaded.contains(norm)
                    &&& if fresh {
                        exists|size: Seq<char>, variant: Seq<char>|
                            events_model(events@) == seq![
                                EventModel::Loaded { language: norm, model_size: size, model_language: variant },
                            ]
                    } else {
                        events@.len() == 0
                    }
                },
                Result::Err(e) => *final(self) == *old(self),
            },
    {
        let norm = crate::text::normalize_language(language);
        proof {
            crate::text::lemma_normalize_idempotent(language@);
        }
        let mut events: Vec<DaemonEventType> = Vec::new();
        if !self.pool.contains_language(norm.as_str()) {
            let variant = crate::model::model_language_for_transcription(norm.as_str());
            let spec = ModelSpec::new(crate::model::ModelSize::Small, variant);
            match platform.load_model(&spec, config.download_model) {
                Result::Ok(loaded) => {
                    events.push(
                        DaemonEventType::ModelLoaded {
                            language: norm.clone(),
                            model_size: loaded.model_size.clone(),
                            model_language: loaded.model_language.clone(),
                        },
                    );
                    self.install_model(norm.clone(), loaded);
                    proof {
                        assert(events_model(events@) =~= seq![
                            EventModel::Loaded {
                                language: norm@,
                                model_size: events@[0]->ModelLoaded_model_size@,
                                model_language: events@[0]->ModelLoaded_model_language@,
                            },
                        ]);
                    }
                },
                Result::Err(message) => {
                    return Result::Err(AppError::runtime(message));
                },
            }
        }
        self.set_active(norm);
        Result::Ok(events)
    }

    /// Finalizes the recording in flight: drains and closes the capture
    /// stream, trims the utterance, transcribes a non-empty one, delivers
    /// the transcript, and reports the events to broadcast. A transcription
    /// failure aborts the utterance with an error report; the daemon always
    /// returns to idle. Fails only when no model is cached for the active
    /// language, in which case nothing changes.
    pub fn finish_recording<P: DaemonPlatform>(
        &mut self,
        platform: &mut P,
        config: &DaemonConfig,
        vad: &VadConfig,
    ) -> (r: Result<Vec<DaemonEventType>, AppError>)
        requires
            daemon_wf(*old(self)),
            old(self)@.recording,
            old(self)@.utterance < u64::MAX,
        ensures
            daemon_wf(*final(self)),
            match r {
                Result::Ok(events) => {
                    &&& !final(self)@.recording
                    &&& final(self)@.buffer.len() == 0
                    &&& final(self)@.language == old(self)@.language
                    &&& final(self)@.shutdown == old(self)@.shutdown
                    &&& final(self)@.loaded == old(self)@.loaded
                    &&& exists|buf: Seq<i16>, transcript: Result<Seq<char>, Seq<char>>|
                        {
                            &&& events_model(events@) == #[trigger] spec_finish_events(
                                old(self)@.language,
                                trim_spec(buf, config.sample_rate, *vad),
                                (old(self)@.utterance + 1) as nat,
                                config.sample_rate,
                                transcript,
                            )
                            &&& final(self)@.utterance == if trim_spec(
                                buf,
                                config.sample_rate,
                                *vad,
                            ).len() == 0 {
                                old(self)@.utterance
                            } else {
                                old(self)@.utterance + 1
                            }
                        }
                },
                Result::Err(e) => {
                    &&& *final(self) == *old(self)
                    &&& !old(self)@.loaded.contains(old(self)@.language)
                    &&& e.kind == crate::error::AppErrorKind::Runtime
                    &&& e.message@ == "no model loaded for language '"@ + old(self)@.language
                        + "'; set-language first"@
                },
            },
    {
        let engine = match self.pool.transcriber_for(self.active_language.as_str()) {
            Option::Some(engine) => engine,
            Option::None => {
                let mut message: String = "no model loaded for language '".to_owned();
                vstd::string::StringExecFns::append(&mut message, self.active_language.as_str());
                vstd::string::StringExecFns::append(&mut message, "'; set-language first");
                proof {
                    assert(message@ =~= "no model loaded for language '"@ + self@.language
                        + "'; set-language first"@);
                }
                return Result::Err(AppError::runtime(message));
            },
        };
        platform.drain_capture(&mut self.buffer);
        platform.stop_capture();
        let ghost drained = self.buffer@;
        let mut events: Vec<DaemonEventType> = Vec::new();
        let utterance = self.begin_finalize(config.sample_rate, vad);
        let ghost trimmed = trim_spec(drained, config.sample_rate, *vad);
        match utterance {
            Option::None => {
                events.push(
                    DaemonEventType::RecordingStopped { language: self.active_language.clone() },
                );
                proof {
                    let tr = Result::<Seq<char>, Seq<char>>::Ok(Seq::empty());
                    assert(events_model(events@) =~= spec_finish_events(
                        old(self)@.language,
                        trimmed,
                        (old(self)@.utterance + 1) as nat,
                        config.sample_rate,
                        tr,
                    ));
                }
            },
            Option::Some((samples, index, duration_ms)) => {
                match platform.transcribe(engine, &samples, self.active_language.as_str()) {
                    Result::Ok(text) => {
                        platform.deliver_transcript(
                            text.as_str(),
                            crate::audio::SegmentInfo { index, duration_ms },
                        );
                        events.push(
                            DaemonEventType::TranscriptFinal {
                                language: self.active_language.clone(),
                                utterance: index,
                                duration_ms,
                                text,
                            },
                        );
                        platform.output_line("Ready for next utterance.");
                        events.push(
                            DaemonEventType::RecordingStopped {
                                language: self.active_language.clone(),
                            },
                        );
                        proof {
                            let tr = Result::<Seq<char>, Seq<char>>::Ok(
                                events@[0]->TranscriptFinal_text@,
                            );
                            assert(events_model(events@) =~= spec_finish_events(
                                old(self)@.language,
                                trimmed,
                                (old(self)@.utterance + 1) as nat,
                                config.sample_rate,
                                tr,
                            ));
                        }
                    },
                    Result::Err(message) => {
                        events.push(DaemonEventType::Error { message });
                        events.push(
                            DaemonEventType::RecordingStopped {
                                language: self.active_language.clone(),
                            },
                        );
                        proof {
                            let tr = Result::<Seq<char>, Seq<char>>::Err(
                                events@[0]->Error_message@,
                            );
                            assert(events_model(events@) =~= spec_finish_events(
                                old(self)@.language,
                                trimmed,
                                (old(self)@.utterance + 1) as nat,
                                config.sample_rate,
                                tr,
                            ));
                        }
                    },
                }
            },
        }
        Result::Ok(events)
    }

    /// Processes one control message on the coordinator thread: the response
    /// for the waiting client, the events to broadcast, or a fatal error
    /// that ends the loop. `status` is a pure read; `stop` only raises the
    /// shutdown flag; an unparseable command never reaches this function.
    /// A message whose models are already cached is always answered: only a
    /// failing fresh load or a missing engine ends the loop, and a failed
    /// capture start is itself an answer, not an exit.
    pub fn handle_message<P: DaemonPlatform>(
        &mut self,
        platform: &mut P,
        config: &DaemonConfig,
        vad: &VadConfig,
        event: ControlEvent,
    ) -> (r: (Result<ControlResponse, AppError>, Vec<DaemonEventType>))
        requires
            daemon_wf(*old(self)),
            old(self)@.utterance < u64::MAX,
        ensures
            daemon_wf(*final(self)),
            event matches ControlEvent::Status ==> {
                &&& *final(self) == *old(self)
                &&& r.1@.len() == 0
                &&& r.0 matches Ok(resp) && resp.ok && (resp.state matches Some(s) && s@
                    == spec_state_label(old(self)@)) && (resp.language matches Some(l) && l@ == old(
                    self,
                )@.language)
            },
            event matches ControlEvent::Stop ==> {
                &&& final(self)@ == (DaemonModel { shutdown: true, ..old(self)@ })
                &&& r.1@.len() == 0
                &&& r.0 matches Ok(resp) && resp.ok && (resp.state matches Some(s) && s@
                    == spec_state_label(old(self)@)) && (resp.language matches Some(l) && l@ == old(
                    self,
                )@.language)
            },
            event matches ControlEvent::Error(m) ==> {
                &&& *final(self) == *old(self)
                &&& r.0 is Err
                &&& events_model(r.1@) == seq![EventModel::Failed { message: m@ }]
            },
            event matches ControlEvent::SetLanguage { language } ==> match r.0 {
                Result::Ok(resp) => {
                    let norm = normalize_spec(language@);
                    let fresh = !old(self)@.loaded.contains(norm);
                    &&& final(self)@ == spec_set_language(old(self)@, norm, fresh)
                    &&& resp.ok
                    &&& resp.state matches Some(s) && s@ == spec_state_label(old(self)@)
                    &&& resp.language matches Some(l) && l@ == norm
                    &&& if fresh {
                        exists|size: Seq<char>, variant: Seq<char>|
                            events_model(r.1@) == seq![
                                EventModel::Loaded { language: norm, model_size: size, model_language: variant },
                            ]
                    } else {
                        r.1@.len() == 0
                    }
                },
                Result::Err(e) => *final(self) == *old(self),
            },
            match event {
                ControlEvent::Toggle { language: Option::Some(l) } => match r.0 {
                    Result::Ok(resp) => (resp.ok && !old(self)@.recording && !old(
                        self,
                    )@.loaded.contains(normalize_spec(l@))) ==> exists|
                        size: Seq<char>,
                        variant: Seq<char>,
                    |
                        events_model(r.1@) == seq![
                            EventModel::Loaded {
                                language: normalize_spec(l@),
                                model_size: size,
                                model_language: variant,
                            },
                            EventModel::Started { language: normalize_spec(l@) },
                        ],
                    Result::Err(e) => true,
                },
                _ => true,
            },
            event matches ControlEvent::Toggle { language: Option::None } && r.0 matches Ok(resp)
                && resp.ok && !old(self)@.recording ==> {
                &&& events_model(r.1@) == seq![
                    EventModel::Started { language: old(self)@.language },
                ]
                &&& final(self)@ == spec_start_recording(old(self)@)
            },
            match r.0 {
                Result::Ok(resp) => event matches ControlEvent::Toggle { language: lang_opt }
                    ==> final(self)@.language == match lang_opt {
                    Option::None => old(self)@.language,
                    Option::Some(l) => normalize_spec(l@),
                },
                Result::Err(e) => true,
            },
            match r.0 {
                Result::Ok(resp) => (event matches ControlEvent::Toggle { language: lang_opt }
                    && resp.ok) ==> final(self)@.recording == !old(self)@.recording,
                Result::Err(e) => true,
            },
            match r.0 {
                Result::Ok(resp) => (event matches ControlEvent::Toggle { language: lang_opt }
                    && !resp.ok) ==> final(self)@.recording == old(self)@.recording && !old(
                    self,
                )@.recording,
                Result::Err(e) => true,
            },
            match r.0 {
                Result::Ok(resp) => (event matches ControlEvent::Toggle { language: lang_opt }
                    && old(self)@.recording) ==> (resp.ok && !final(self)@.recording
                    && final(self)@.buffer.len() == 0
                    && (resp.state matches Some(s) && s@ == "idle"@)),
                Result::Err(e) => true,
            },
            match r.0 {
                Result::Ok(resp) => (event matches ControlEvent::Toggle { language: lang_opt }
                    && resp.ok) ==> (resp.language matches Some(l)
                    && l@ == final(self)@.language),
                Result::Err(e) => true,
            },
            match r.0 {
                Result::Ok(resp) => (event matches ControlEvent::Toggle { language: lang_opt }
                    && resp.ok && !old(self)@.recording) ==> (resp.state matches Some(s)
                    && s@ == "recording"@),
                Result::Err(e) => true,
            },
            match event {
                ControlEvent::Toggle { language: lang_opt } => {
                    &&& (!old(self)@.recording && toggle_lang_ready(old(self)@, lang_opt))
                        ==> r.0 is Ok
                    &&& (old(self)@.recording && toggle_lang_ready(old(self)@, lang_opt) && (
                    lang_opt is Some || old(self)@.loaded.contains(old(self)@.language)))
                        ==> r.0 is Ok
                },
                ControlEvent::SetLanguage { language } => old(self)@.loaded.contains(
                    normalize_spec(language@),
                ) ==> r.0 is Ok,
                _ => true,
            },
            match r.0 {
                Result::Ok(resp) => (event matches ControlEvent::Toggle {
                    language: Option::None,
                } && old(self)@.recording) ==> exists|
                    buf: Seq<i16>,
                    transcript: Result<Seq<char>, Seq<char>>,
                |
                    events_model(r.1@) == #[trigger] spec_finish_events(
                        old(self)@.language,
                        trim_spec(buf, config.sample_rate, *vad),
                        (old(self)@.utterance + 1) as nat,
                        config.sample_rate,
                        transcript,
                    ),
                Result::Err(e) => true,
            },
            match event {
                ControlEvent::Toggle { language: Option::Some(l) } => match r.0 {
                    Result::Ok(resp) => (old(self)@.recording && old(self)@.loaded.contains(
                        normalize_spec(l@),
                    )) ==> exists|buf: Seq<i16>, transcript: Result<Seq<char>, Seq<char>>|
                        events_model(r.1@) == #[trigger] spec_finish_events(
                            normalize_spec(l@),
                            trim_spec(buf, config.sample_rate, *vad),
                            (old(self)@.utterance + 1) as nat,
                            config.sample_rate,
                            transcript,
                        ),
                    Result::Err(e) => true,
                },
                _ => true,
            },
            match event {
                ControlEvent::Toggle { language: Option::Some(l) } => match r.0 {
                    Result::Ok(resp) => (old(self)@.recording && !old(self)@.loaded.contains(
                        normalize_spec(l@),
                    )) ==> exists|
                        model_size: Seq<char>,
                        model_language: Seq<char>,
                        buf: Seq<i16>,
                        transcript: Result<Seq<char>, Seq<char>>,
                    |
                        events_model(r.1@) == #[trigger] spec_loaded_then_finish_events(
                            normalize_spec(l@),
                            model_size,
                            model_language,
                            trim_spec(buf, config.sample_rate, *vad),
                            (old(self)@.utterance + 1) as nat,
                            config.sample_rate,
                            transcript,
                        ),
                    Result::Err(e) => true,
                },
                _ => true,
            },
    {
        match event {
            ControlEvent::Status => {
                let resp = self.status_response();
                (Result::Ok(resp), Vec::new())
            },
            ControlEvent::Stop => {
                let resp = self.status_response();
                self.shutdown = true;
                (Result::Ok(resp), Vec::new())
            },
            ControlEvent::Error(message) => {
                let mut events: Vec<DaemonEventType> = Vec::new();
                events.push(DaemonEventType::Error { message: message.clone() });
                proof {
                    assert(events_model(events@) =~= seq![
                        EventModel::Failed { message: message@ },
                    ]);
                }
                (Result::Err(AppError::runtime(message)), events)
            },
            ControlEvent::SetLanguage { language } => {
                let label = self.state_label();
                match self.apply_language(platform, config, language.as_str()) {
                    Result::Ok(events) => {
                        let resp = control_ok_response(label, self.active_language.as_str());
                        (Result::Ok(resp), events)
                    },
                    Result::Err(e) => (Result::Err(e), Vec::new()),
                }
            },
            ControlEvent::Toggle { language } => {
                let ghost had_lang = language is Some;
                let ghost norm_g = if language is Some {
                    normalize_spec(language->0@)
                } else {
                    old(self)@.language
                };
                let ghost was_fresh = had_lang && !old(self)@.loaded.contains(norm_g);
                let mut events: Vec<DaemonEventType> = Vec::new();
                match language {
                    Option::Some(l) => {
                        match self.apply_language(platform, config, l.as_str()) {
                            Result::Ok(evs) => {
                                events = evs;
                            },
                            Result::Err(e) => {
                                return (Result::Err(e), Vec::new());
                            },
                        }
                    },
                    Option::None => {},
                }
                proof {
                    assert(self@.language == norm_g);
                }
                if self.recording {
                    let ghost events_pre = events@;
                    let ghost mid = self@;
                    match self.finish_recording(platform, config, vad) {
                        Result::Ok(mut evs) => {
                            let ghost finish_events = evs@;
                            events.append(&mut evs);
                            proof {
                                assert(events@ == events_pre + finish_events);
                                assert(events_model(events@) =~= events_model(events_pre)
                                    + events_model(finish_events));
                                assert(exists|
                                    buf: Seq<i16>,
                                    transcript: Result<Seq<char>, Seq<char>>,
                                |
                                    events_model(finish_events) == #[trigger] spec_finish_events(
                                        mid.language,
                                        trim_spec(buf, config.sample_rate, *vad),
                                        (mid.utterance + 1) as nat,
                                        config.sample_rate,
                                        transcript,
                                    ));
                                let (buf0, tr0) = choose|
                                    buf: Seq<i16>,
                                    transcript: Result<Seq<char>, Seq<char>>,
                                |
                                    events_model(finish_events) == #[trigger] spec_finish_events(
                                        mid.language,
                                        trim_spec(buf, config.sample_rate, *vad),
                                        (mid.utterance + 1) as nat,
                                        config.sample_rate,
                                        transcript,
                                    );
                                if !had_lang {
                                    assert(events_pre.len() == 0);
                                    assert(events_model(events@) =~= events_model(finish_events));
                                    assert(events_model(events@) == spec_finish_events(
                                        old(self)@.language,
                                        trim_spec(buf0, config.sample_rate, *vad),
                                        (old(self)@.utterance + 1) as nat,
                                        config.sample_rate,
                                        tr0,
                                    ));
                                } else if was_fresh {
                                    let (size0, variant0) = choose|
                                        size: Seq<char>,
                                        variant: Seq<char>,
                                    |
                                        events_model(events_pre) == seq![
                                            EventModel::Loaded {
                                                language: norm_g,
                                                model_size: size,
                                                model_language: variant,
                                            },
                                        ];
                                    assert(events_model(events@)
                                        =~= spec_loaded_then_finish_events(
                                        normalize_spec(language->0@),
                                        size0,
                                        variant0,
                                        trim_spec(buf0, config.sample_rate, *vad),
                                        (old(self)@.utterance + 1) as nat,
                                        config.sample_rate,
                                        tr0,
                                    ));
                                } else {
                                    assert(events_pre.len() == 0);
                                    assert(events_model(events@) =~= events_model(finish_events));
                                    assert(events_model(events@) == spec_finish_events(
                                        normalize_spec(language->0@),
                                        trim_spec(buf0, config.sample_rate, *vad),
                                        (old(self)@.utterance + 1) as nat,
                                        config.sample_rate,
                                        tr0,
                                    ));
                                }
                            }
                            let resp = control_ok_response("idle", self.active_language.as_str());
                            (Result::Ok(resp), events)
                        },
                        Result::Err(e) => (Result::Err(e), events),
                    }
                } else {
                    match platform.start_capture(&config.device, config.sample_rate) {
                        Result::Ok(()) => {
                            self.buffer = Vec::new();
                            self.recording = true;
                            platform.output_line("Toggle on. Recording...");
                            let ghost events0 = events@;
                            events.push(
                                DaemonEventType::RecordingStarted {
                                    language: self.active_language.clone(),
                                },
                            );
                            proof {
                                assert(events_model(events@) =~= events_model(events0).push(
                                    EventModel::Started { language: self@.language },
                                ));
                            }
                            let resp = control_ok_response(
                                "recording",
                                self.active_language.as_str(),
                            );
                            (Result::Ok(resp), events)
                        },
                        Result::Err(e) => {
                            let resp = control_error_response("audio_error", e.message);
                            (Result::Ok(resp), events)
                        },
                    }
                }
            },
        }
    }
}

/// The normalized language codes to preload: every configured pool language,
/// with the active language appended when it is not already among them.
pub open spec fn spec_preload_plan(langs: Seq<Seq<char>>, active: Seq<char>) -> Seq<Seq<char>> {
    let normed = Seq::new(langs.len(), |i: int| normalize_spec(langs[i]));
    if normed.contains(normalize_spec(active)) {
        normed
    } else {
        normed.push(normalize_spec(active))
    }
}

/// The startup plan always names the active language: preloading therefore
/// leaves the active language's model cached, which is what lets a later
/// shutdown flush finalize an in-flight recording instead of failing —
/// shutdown never drops a completed recording.
pub proof fn lemma_preload_plan_covers_active(langs: Seq<Seq<char>>, active: Seq<char>)
    ensures
        exists|j: int|
            0 <= j < spec_preload_plan(langs, active).len() && #[trigger] spec_preload_plan(
                langs,
                active,
            )[j] == normalize_spec(active),
{
    let normed = Seq::new(langs.len(), |i: int| normalize_spec(langs[i]));
    if normed.contains(normalize_spec(active)) {
        let j = choose|j: int| 0 <= j < normed.len() && normed[j] == normalize_spec(active);
        assert(spec_preload_plan(langs, active)[j] == normalize_spec(active));
    } else {
        assert(spec_preload_plan(langs, active)[normed.len() as int] == normalize_spec(active));
    }
}

/// The set of languages the startup plan names.
pub open spec fn spec_preload_set(langs: Seq<Seq<char>>, active: Seq<char>) -> Set<Seq<char>> {
    Set::new(
        |l: Seq<char>| exists|j: int|
            0 <= j < spec_preload_plan(langs, active).len() && #[trigger] spec_preload_plan(
                langs,
                active,
            )[j] == l,
    )
}

impl Daemon {
    /// The languages to load at startup, in order.
    pub fn preload_plan(config: &DaemonConfig) -> (r: Vec<String>)
        ensures
            r.deep_view() == spec_preload_plan(
                config.model_pool_languages.deep_view(),
                config.language@,
            ),
    {
        let ghost langs = config.model_pool_languages.deep_view();
        let mut normed: Vec<String> = Vec::new();
        let mut i: usize = 0;
        while i < config.model_pool_languages.len()
            invariant
                i <= config.model_pool_languages@.len(),
                langs == config.model_pool_languages.deep_view(),
                langs.len() == config.model_pool_languages@.len(),
                normed.deep_view() =~= Seq::new(i as nat, |j: int| normalize_spec(langs[j])),
            decreases config.model_pool_languages@.len() - i,
        {
            proof {
                assert(langs[i as int] == config.model_pool_languages@[i as int]@);
            }
            let n = crate::text::normalize_language(config.model_pool_languages[i].as_str());
            let ghost old_dv = normed.deep_view();
            let ghost n_view = n@;
            normed.push(n);
            i = i + 1;
            proof {
                assert(normed.deep_view() =~= old_dv.push(n_view));
                assert(normed.deep_view() =~= Seq::new(i as nat, |j: int| normalize_spec(langs[j])));
            }
        }
        let active = crate::text::normalize_language(config.language.as_str());
        let mut found: bool = false;
        let mut k: usize = 0;
        while k < normed.len()
            invariant
                k <= normed@.len(),
                found == exists|j: int| 0 <= j < k && normed.deep_view()[j] == active@,
            decreases normed@.len() - k,
        {
            if crate::text::str_eq(normed[k].as_str(), active.as_str()) {
                proof {
                    assert(normed.deep_view()[k as int] == active@);
                }
                found = true;
            }
            k = k + 1;
        }
        proof {
            assert(found == normed.deep_view().contains(active@));
        }
        if !found {
            normed.push(active);
        }
        proof {
            assert(normed.deep_view() =~= spec_preload_plan(langs, config.language@));
        }
        normed
    }

    /// Loads the active language and every configured pool language, failing
    /// fast on the first error. Each language is loaded at most once, and
    /// nothing outside the plan enters the pool. With every planned language
    /// already cached, no load happens and preloading always succeeds.
    pub fn preload<P: DaemonPlatform>(&mut self, platform: &mut P, config: &DaemonConfig) -> (r:
        Result<(), AppError>)
        requires
            daemon_wf(*old(self)),
        ensures
            daemon_wf(*final(self)),
            final(self).recording == old(self).recording,
            final(self).active_language == old(self).active_language,
            final(self).buffer == old(self).buffer,
            final(self).utterance_index == old(self).utterance_index,
            final(self).shutdown == old(self).shutdown,
            r is Ok ==> forall|j: int|
                0 <= j < spec_preload_plan(
                    config.model_pool_languages.deep_view(),
                    config.language@,
                ).len() ==> final(self)@.loaded.contains(
                    #[trigger] spec_preload_plan(
                        config.model_pool_languages.deep_view(),
                        config.language@,
                    )[j],
                ),
            r is Ok ==> final(self)@.loaded == old(self)@.loaded.union(
                spec_preload_set(
                    config.model_pool_languages.deep_view(),
                    config.language@,
                ),
            ),
            (forall|j: int|
                0 <= j < spec_preload_plan(
                    config.model_pool_languages.deep_view(),
                    config.language@,
                ).len() ==> old(self)@.loaded.contains(
                    #[trigger] spec_preload_plan(
                        config.model_pool_languages.deep_view(),
                        config.language@,
                    )[j],
                )) ==> r is Ok,
            r is Ok ==> final(self)@.loaded.contains(normalize_spec(config.language@)),
    {
        proof {
            lemma_preload_plan_covers_active(
                config.model_pool_languages.deep_view(),
                config.language@,
            );
        }
        let plan = Daemon::preload_plan(config);
        let ghost plan_view = plan.deep_view();
        let mut i: usize = 0;
        proof {
            assert(self@.loaded =~= old(self)@.loaded.union(
                Set::new(|l: Seq<char>| exists|j: int| 0 <= j < 0 && plan_view[j] == l),
            ));
        }
        while i < plan.len()
            invariant
                i <= plan@.len(),
                plan_view == plan.deep_view(),
                plan_view == spec_preload_plan(
                    config.model_pool_languages.deep_view(),
                    config.language@,
                ),
                plan_view.len() == plan@.len(),
                daemon_wf(*self),
                self.recording == old(self).recording,
                self.active_language == old(self).active_language,
                self.buffer == old(self).buffer,
                self.utterance_index == old(self).utterance_index,
                self.shutdown == old(self).shutdown,
                forall|j: int| 0 <= j < i ==> self@.loaded.contains(#[trigger] plan_view[j]),
                self@.loaded == old(self)@.loaded.union(
                    Set::new(
                        |l: Seq<char>| exists|j: int| 0 <= j < i && #[trigger] plan_view[j] == l,
                    ),
                ),
            decreases plan@.len() - i,
        {
            proof {
                assert(plan_view[i as int] == plan@[i as int]@);
            }
            if !self.pool.contains_language(plan[i].as_str()) {
                proof {
                    assert(!old(self)@.loaded.contains(plan_view[i as int])) by {
                        assert(old(self)@.loaded.union(
                            Set::new(
                                |l: Seq<char>| exists|j: int|
                                    0 <= j < i && #[trigger] plan_view[j] == l,
                            ),
                        ).contains(plan_view[i as int]) == self@.loaded.contains(
                            plan_view[i as int],
                        ));
                    }
                    assert(spec_preload_plan(
                        config.model_pool_languages.deep_view(),
                        config.language@,
                    )[i as int] == plan_view[i as int]);
                }
                let variant = crate::model::model_language_for_transcription(plan[i].as_str());
                let spec = ModelSpec::new(crate::model::ModelSize::Small, variant);
                match platform.load_model(&spec, config.download_model) {
                    Result::Ok(loaded) => {
                        let lang = plan[i].clone();
                        self.install_model(lang, loaded);
                    },
                    Result::Err(message) => {
                        return Result::Err(AppError::runtime(message));
                    },
                }
            }
            i = i + 1;
            proof {
                assert(self@.loaded =~= old(self)@.loaded.union(
                    Set::new(
                        |l: Seq<char>| exists|j: int| 0 <= j < i && #[trigger] plan_view[j] == l,
                    ),
                ));
            }
        }
        proof {
            assert(Set::new(
                |l: Seq<char>| exists|j: int|
                    0 <= j < plan_view.len() && #[trigger] plan_view[j] == l,
            ) =~= spec_preload_set(config.model_pool_languages.deep_view(), config.language@));
            assert(self@.loaded =~= old(self)@.loaded.union(
                spec_preload_set(config.model_pool_languages.deep_view(), config.language@),
            ));
        }
        Result::Ok(())
    }

    /// The events announcing a started daemon: readiness, then the metadata
    /// of the active language's model when one is cached.
    pub fn startup_events(&self) -> (events: Vec<DaemonEventType>)
        ensures
            events@.len() >= 1,
            event_model(events@[0]) == EventModel::Ready,
            self@.loaded.contains(self@.language) ==> events@.len() == 2 && (event_model(
                events@[1],
            ) matches EventModel::Loaded { language, .. } && language == self@.language),
            !self@.loaded.contains(self@.language) ==> events@.len() == 1,
    {
        let mut events: Vec<DaemonEventType> = Vec::new();
        events.push(DaemonEventType::DaemonReady);
        match self.pool.metadata_for(self.active_language.as_str()) {
            Option::Some(meta) => {
                events.push(
                    DaemonEventType::ModelLoaded {
                        language: self.active_language.clone(),
                        model_size: meta.0,
                        model_language: meta.1,
                    },
                );
            },
            Option::None => {},
        }
        events
    }

    /// What shutdown does before the loop exits: an in-flight recording is
    /// still finalized, so a completed recording is never dropped. With the
    /// active language's model cached the flush always succeeds — and
    /// `preload` leaves it cached (`lemma_preload_plan_covers_active`), so a
    /// daemon that started normally can always shut down cleanly.
    pub fn flush_shutdown<P: DaemonPlatform>(
        &mut self,
        platform: &mut P,
        config: &DaemonConfig,
        vad: &VadConfig,
    ) -> (r: (Result<(), AppError>, Vec<DaemonEventType>))
        requires
            daemon_wf(*old(self)),
            old(self)@.utterance < u64::MAX,
        ensures
            daemon_wf(*final(self)),
            !old(self)@.recording ==> *final(self) == *old(self) && r.1@.len() == 0 && r.0 is Ok,
            old(self)@.loaded.contains(old(self)@.language) ==> r.0 is Ok,
            old(self)@.recording && r.0 is Ok ==> {
                &&& !final(self)@.recording
                &&& exists|buf: Seq<i16>, transcript: Result<Seq<char>, Seq<char>>|
                    events_model(r.1@) == #[trigger] spec_finish_events(
                        old(self)@.language,
                        trim_spec(buf, config.sample_rate, *vad),
                        (old(self)@.utterance + 1) as nat,
                        config.sample_rate,
                        transcript,
                    )
            },
            r.0 is Err ==> *final(self) == *old(self),
    {
        if self.recording {
            match self.finish_recording(platform, config, vad) {
                Result::Ok(events) => {
                    platform.output_line("Daemon shutting down.");
                    (Result::Ok(()), events)
                },
                Result::Err(e) => (Result::Err(e), Vec::new()),
            }
        } else {
            platform.output_line("Daemon shutting down.");
            (Result::Ok(()), Vec::new())
        }
    }
}

/// The command a control event stands for; the listener-error event stands
/// for none.
pub open spec fn control_event_command(e: ControlEvent) -> Option<crate::ipc::CommandModel> {
    match e {
        ControlEvent::Toggle { language } => Option::Some(
            crate::ipc::CommandModel::Toggle {
                lang: match language {
                    Option::None => Option::None,
                    Option::Some(l) => Option::Some(l@),
                },
            },
        ),
        ControlEvent::Status => Option::Some(crate::ipc::CommandModel::Status),
        ControlEvent::SetLanguage { language } => Option::Some(
            crate::ipc::CommandModel::SetLanguage { lang: language@ },
        ),
        ControlEvent::Stop => Option::Some(crate::ipc::CommandModel::Stop),
        ControlEvent::Error(m) => Option::None,
    }
}

/// Decodes one command line into the event the coordinator will process; an
/// unparseable line yields the message for the `invalid_request` response
/// and never reaches the coordinator.
pub fn control_event_from_command(command: &str) -> (r: Result<ControlEvent, String>)
    ensures
        match r {
            Result::Ok(ev) => control_event_command(ev) matches Some(cm)
                && crate::ipc::parse_request_model(command@) == Result::<
                crate::ipc::CommandModel,
                Seq<char>,
            >::Ok(cm),
            Result::Err(m) => crate::ipc::parse_request_model(command@) == Result::<
                crate::ipc::CommandModel,
                Seq<char>,
            >::Err(m@),
        },
{
    match crate::ipc::parse_control_request(command) {
        Result::Ok(request) => match request.command {
            crate::ipc::ControlCommand::Toggle { lang } => Result::Ok(
                ControlEvent::Toggle { language: lang },
            ),
            crate::ipc::ControlCommand::Status => Result::Ok(ControlEvent::Status),
            crate::ipc::ControlCommand::SetLanguage { lang } => Result::Ok(
                ControlEvent::SetLanguage { language: lang },
            ),
            crate::ipc::ControlCommand::Stop => Result::Ok(ControlEvent::Stop),
        },
        Result::Err(m) => Result::Err(m),
    }
}

/// The line a toggle request sends: `toggle lang=<code>` when a non-blank
/// language is given, a plain `toggle` otherwise.
pub fn build_toggle_command(language: Option<&str>) -> (r: String)
    ensures
        r@ == match language {
            Option::Some(l) => {
                if crate::text::trim_chars(l@).len() > 0 {
                    "toggle lang="@ + l@
                } else {
                    "toggle"@
                }
            },
            Option::None => "toggle"@,
        },
{
    match language {
        Option::Some(l) => {
            if !crate::text::is_blank(l) {
                let mut out: String = "toggle lang=".to_owned();
                vstd::string::StringExecFns::append(&mut out, l);
                proof {
                    assert(out@ =~= "toggle lang="@ + l@);
                }
                out
            } else {
                "toggle".to_owned()
            }
        },
        Option::None => "toggle".to_owned(),
    }
}

/// The line a language switch sends: `set-language lang=<code>`.
pub fn build_set_language_command(language: &str) -> (r: String)
    ensures
        r@ == "set-language lang="@ + language@,
{
    let mut out: String = "set-language lang=".to_owned();
    vstd::string::StringExecFns::append(&mut out, language);
    proof {
        assert(out@ =~= "set-language lang="@ + language@);
    }
    out
}

/// Asking for the status right after `set-language lang=X` reports the
/// normalized form of `X` as the language, whatever the daemon was doing and
/// whether or not the model was freshly loaded.
pub proof fn lemma_set_language_then_status(m: DaemonModel, lang: Seq<char>, fresh: bool)
    ensures
        spec_state_label(spec_set_language(m, normalize_spec(lang), fresh)) == spec_state_label(m),
        spec_set_language(m, normalize_spec(lang), fresh).language == normalize_spec(lang),
{
}

/// One toggle cycle produces exactly one final transcript: starting from an
/// idle daemon, toggling on and then off with a recorded buffer whose
/// trimmed form is non-empty, and a transcription that returns `text`, the
/// broadcast is exactly the transcript event — carrying `text` and the next
/// utterance index — followed by the stop notice.
pub proof fn lemma_toggle_cycle_one_transcript(
    m: DaemonModel,
    buf: Seq<i16>,
    rate: u32,
    vad: VadConfig,
    text: Seq<char>,
)
    requires
        !m.recording,
        trim_spec(buf, rate, vad).len() > 0,
    ensures
        ({
            let started = spec_start_recording(m);
            let filled = DaemonModel { buffer: buf, ..started };
            let events = spec_finish_events(
                filled.language,
                trim_spec(filled.buffer, rate, vad),
                (filled.utterance + 1) as nat,
                rate,
                Result::Ok(text),
            );
            &&& count_transcripts(events) == 1
            &&& events == seq![
                EventModel::Transcript {
                    language: m.language,
                    utterance: (m.utterance + 1) as nat,
                    duration_ms: crate::audio::spec_ms_u64(trim_spec(buf, rate, vad).len(), rate as nat),
                    text,
                },
                EventModel::Stopped { language: m.language },
            ]
            &&& spec_finish_recording(filled, rate, vad).utterance == m.utterance + 1
        }),
{
    let started = spec_start_recording(m);
    let filled = DaemonModel { buffer: buf, ..started };
    let events = spec_finish_events(
        filled.language,
        trim_spec(filled.buffer, rate, vad),
        (filled.utterance + 1) as nat,
        rate,
        Result::Ok(text),
    );
    assert(events.len() == 2);
    lemma_count_two(events);
    assert(count_transcripts(events) == 1);
}

/// Evaluates `count_transcripts` on a two-event list.
proof fn lemma_count_two(events: Seq<EventModel>)
    requires
        events.len() == 2,
    ensures
        count_transcripts(events) == (if events[0] is Transcript {
            1nat
        } else {
            0nat
        }) + (if events[1] is Transcript {
            1nat
        } else {
            0nat
        }),
{
    let one = events.drop_last();
    assert(one =~= seq![events[0]]);
    assert(one.drop_last() =~= Seq::<EventModel>::empty());
    assert(count_transcripts(Seq::<EventModel>::empty()) == 0);
    assert(count_transcripts(one) == count_transcripts(one.drop_last()) + (if one.last()
        is Transcript {
        1nat
    } else {
        0nat
    }));
    assert(count_transcripts(events) == count_transcripts(one) + (if events.last() is Transcript {
        1nat
    } else {
        0nat
    }));
}

/// Shutdown never drops a completed recording: finalizing an in-flight
/// recording whose trimmed utterance is non-empty emits the final
/// transcript, and emits it before the stop notice.
pub proof fn lemma_stop_finalizes_in_flight(
    m: DaemonModel,
    rate: u32,
    vad: VadConfig,
    text: Seq<char>,
)
    requires
        m.recording,
        trim_spec(m.buffer, rate, vad).len() > 0,
    ensures
        ({
            let events = spec_finish_events(
                m.language,
                trim_spec(m.buffer, rate, vad),
                (m.utterance + 1) as nat,
                rate,
                Result::Ok(text),
            );
            &&& events.len() == 2
            &&& events[0] is Transcript
            &&& events[0]->Transcript_text == text
            &&& events[1] is Stopped
        }),
{
}

/// Whatever the engine returned and however much silence was trimmed, the
/// events of a finalized recording always close with the stop notice.
pub proof fn lemma_finish_events_end_with_stop(
    language: Seq<char>,
    trimmed: Seq<i16>,
    next_index: nat,
    rate: u32,
    transcript: Result<Seq<char>, Seq<char>>,
)
    ensures
        spec_finish_events(language, trimmed, next_index, rate, transcript).len() >= 1,
        spec_finish_events(language, trimmed, next_index, rate, transcript).last() == (
        EventModel::Stopped { language }),
{
}

/// A toggle with a language that was never loaded broadcasts exactly one
/// `model_loaded` event for that language, ordered before the
/// `recording_started` event. (This is the event list that
/// `handle_message` promises for that case.)
pub proof fn lemma_fresh_toggle_load_order(
    norm: Seq<char>,
    size: Seq<char>,
    variant: Seq<char>,
)
    ensures
        ({
            let events = seq![
                EventModel::Loaded { language: norm, model_size: size, model_language: variant },
                EventModel::Started { language: norm },
            ];
            &&& events.len() == 2
            &&& events[0] is Loaded
            &&& events[0]->Loaded_language == norm
            &&& events[1] is Started
            &&& count_transcripts(events) == 0
        }),
{
    let events = seq![
        EventModel::Loaded { language: norm, model_size: size, model_language: variant },
        EventModel::Started { language: norm },
    ];
    lemma_count_two(events);
}

} // verus!
