//! The two wire formats of the daemon: whitespace-tokenized command lines in,
//! newline-delimited JSON objects out (control responses and broadcast
//! events).
use vstd::prelude::*;

verus! {

use vstd::string::StrSliceExecFns;
use vstd::string::StringExecFns;
use crate::text::escape_chars;
use crate::text::dec_digits;
use crate::text::json_escape;
use crate::text::u64_to_string;

/// The protocol version stamped on every request, response and event.
pub fn api_version_string() -> (r: String)
    ensures
        r@ == "1"@,
{
    "1".to_owned()
}

#[derive(Debug, Clone, PartialEq, Eq)]
pub struct ControlRequest {
    pub api_version: String,
    pub command: ControlCommand,
}

#[derive(Debug, Clone, PartialEq, Eq)]
pub enum ControlCommand {
    Toggle { lang: Option<String> },
    Status,
    SetLanguage { lang: String },
    Stop,
}

impl ControlRequest {
    pub fn new(command: ControlCommand) -> (r: ControlRequest)
        ensures
            r.api_version@ == "1"@,
            r.command == command,
    {
        ControlRequest { api_version: api_version_string(), command }
    }
}

impl ControlCommand {
    pub fn toggle(lang: Option<String>) -> (r: ControlCommand)
        ensures
            r == (ControlCommand::Toggle { lang }),
    {
        ControlCommand::Toggle { lang }
    }

    pub fn set_language(lang: String) -> (r: ControlCommand)
        ensures
            r == (ControlCommand::SetLanguage { lang }),
    {
        ControlCommand::SetLanguage { lang }
    }
}

#[derive(Debug, Clone, PartialEq, Eq)]
pub struct ControlResponse {
    pub api_version: String,
    pub ok: bool,
    pub state: Option<String>,
    pub language: Option<String>,
    pub error: Option<String>,
    pub message: Option<String>,
}

impl ControlResponse {
    /// A successful response carrying the daemon state label and language.
    pub fn ok(state: Option<String>, language: Option<String>) -> (r: ControlResponse)
        ensures
            r.api_version@ == "1"@,
            r.ok == true,
            r.state == state,
            r.language == language,
            r.error is None,
            r.message is None,
    {
        ControlResponse {
            api_version: api_version_string(),
            ok: true,
            state,
            language,
            error: None,
            message: None,
        }
    }

    /// A failed response carrying an error code and a human-readable message.
    pub fn error(error: &str, message: String) -> (r: ControlResponse)
        ensures
            r.api_version@ == "1"@,
            r.ok == false,
            r.state is None,
            r.language is None,
            r.error matches Some(e) && e@ == error@,
            r.message matches Some(m) && m@ == message@,
    {
        ControlResponse {
            api_version: api_version_string(),
            ok: false,
            state: None,
            language: None,
            error: Some(error.to_owned()),
            message: Some(message),
        }
    }
}

#[derive(Debug, Clone, PartialEq, Eq)]
pub struct DaemonEvent {
    pub api_version: String,
    pub timestamp: String,
    pub event: DaemonEventType,
}

#[derive(Debug, Clone, PartialEq, Eq)]
pub enum DaemonEventType {
    DaemonReady,
    RecordingStarted { language: String },
    RecordingStopped { language: String },
    TranscriptFinal { language: String, utterance: u64, duration_ms: u64, text: String },
    ModelLoaded { language: String, model_size: String, model_language: String },
    Error { message: String },
}

impl DaemonEvent {
    pub fn new(timestamp: &str, event: DaemonEventType) -> (r: DaemonEvent)
        ensures
            r.api_version@ == "1"@,
            r.timestamp@ == timestamp@,
            r.event == event,
    {
        DaemonEvent { api_version: api_version_string(), timestamp: timestamp.to_owned(), event }
    }
}

/// The ghost shape of a command, language values as character sequences.
pub enum CommandModel {
    Toggle { lang: Option<Seq<char>> },
    Status,
    SetLanguage { lang: Seq<char> },
    Stop,
}

/// The ghost shape of a parsed command.
pub open spec fn command_model(c: ControlCommand) -> CommandModel {
    match c {
        ControlCommand::Toggle { lang } => CommandModel::Toggle {
            lang: match lang {
                Option::None => Option::None,
                Option::Some(l) => Option::Some(l@),
            },
        },
        ControlCommand::Status => CommandModel::Status,
        ControlCommand::SetLanguage { lang } => CommandModel::SetLanguage { lang: lang@ },
        ControlCommand::Stop => CommandModel::Stop,
    }
}

/// The length of the leading run of non-space characters.
pub open spec fn token_end(s: Seq<char>) -> int
    decreases s.len(),
{
    if s.len() == 0 || crate::text::is_space_char(s[0]) {
        0
    } else {
        1 + token_end(s.drop_first())
    }
}

pub proof fn lemma_token_end(s: Seq<char>)
    ensures
        0 <= token_end(s) <= s.len(),
        forall|i: int| 0 <= i < token_end(s) ==> !crate::text::is_space_char(s[i]),
        token_end(s) < s.len() ==> crate::text::is_space_char(s[token_end(s)]),
    decreases s.len(),
{
    if s.len() > 0 && !crate::text::is_space_char(s[0]) {
        lemma_token_end(s.drop_first());
        assert forall|i: int| 0 <= i < token_end(s) implies !crate::text::is_space_char(
            s[i],
        ) by {
            if i > 0 {
                assert(s.drop_first()[i - 1] == s[i]);
            }
        }
        if token_end(s) < s.len() {
            assert(s.drop_first()[token_end(s) - 1] == s[token_end(s)]);
        }
    }
}

/// Where a run of `k` non-spaces is followed by a space or the end, the run is
/// exactly the leading token.
proof fn lemma_token_end_is(s: Seq<char>, k: int)
    requires
        0 <= k <= s.len(),
        forall|i: int| 0 <= i < k ==> !crate::text::is_space_char(s[i]),
        k == s.len() || crate::text::is_space_char(s[k]),
    ensures
        token_end(s) == k,
    decreases k,
{
    if k > 0 {
        lemma_token_end_is(s.drop_first(), k - 1);
    }
}

/// The whitespace-separated tokens of `s`, in order.
pub open spec fn tokenize(s: Seq<char>) -> Seq<Seq<char>>
    decreases s.len(),
{
    if s.len() == 0 {
        Seq::empty()
    } else if crate::text::is_space_char(s[0]) {
        tokenize(s.drop_first())
    } else {
        proof {
            lemma_token_end(s.drop_first());
        }
        seq![s.take(token_end(s))] + tokenize(s.skip(token_end(s)))
    }
}

/// Splits a command line into its whitespace-separated tokens.
pub fn tokenize_str(s: &str) -> (tokens: Vec<String>)
    ensures
        tokens.deep_view() == tokenize(s@),
{
    let n: usize = s.unicode_len();
    let mut tokens: Vec<String> = Vec::new();
    let mut i: usize = 0;
    proof {
        assert(s@.skip(0) =~= s@);
        assert(tokens.deep_view() =~= Seq::<Seq<char>>::empty());
        assert(tokens.deep_view() + tokenize(s@) =~= tokenize(s@));
    }
    while i < n
        invariant
            i <= n,
            n == s@.len(),
            tokenize(s@) == tokens.deep_view() + tokenize(s@.skip(i as int)),
        decreases n - i,
    {
        let c = s.get_char(i);
        if crate::text::is_space(c) {
            proof {
                assert(s@.skip(i as int).drop_first() =~= s@.skip(i + 1));
                assert(tokenize(s@.skip(i as int)) == tokenize(s@.skip(i + 1)));
            }
            i = i + 1;
        } else {
            let mut j: usize = i + 1;
            while j < n && !crate::text::is_space(s.get_char(j))
                invariant
                    i < j <= n,
                    n == s@.len(),
                    forall|k: int| i <= k < j ==> !crate::text::is_space_char(s@[k]),
                decreases n - j,
            {
                j = j + 1;
            }
            let tok: String = s.substring_char(i, j).to_owned();
            proof {
                let t = s@.skip(i as int);
                lemma_token_end_is(t, j - i);
                assert(t.take(j - i) =~= s@.subrange(i as int, j as int));
                assert(t.skip(j - i) =~= s@.skip(j as int));
                assert(tokenize(t) == seq![s@.subrange(i as int, j as int)] + tokenize(
                    s@.skip(j as int),
                ));
            }
            let ghost old_dv = tokens.deep_view();
            tokens.push(tok);
            proof {
                assert(tokens.deep_view() =~= old_dv.push(tok@));
                assert(tokens.deep_view() + tokenize(s@.skip(j as int)) =~= tokenize(s@));
            }
            i = j;
        }
    }
    proof {
        assert(s@.skip(n as int) =~= Seq::<char>::empty());
        assert(tokenize(s@) =~= tokens.deep_view());
    }
    tokens
}

/// The value of a `lang=<CODE>` token, `None` when the token has another
/// shape.
pub open spec fn lang_arg(tok: Seq<char>) -> Option<Seq<char>> {
    if tok.len() >= 5 && tok.take(5) == "lang="@ {
        Option::Some(tok.skip(5))
    } else {
        Option::None
    }
}

/// Folds the tokens after `toggle` or `set-language`: each must be a
/// `lang=<CODE>` with a non-empty value, and at most one may appear.
pub open spec fn parse_lang_list(toks: Seq<Seq<char>>, acc: Option<Seq<char>>, ctx: Seq<char>) -> Result<
    Option<Seq<char>>,
    Seq<char>,
>
    decreases toks.len(),
{
    if toks.len() == 0 {
        Result::Ok(acc)
    } else {
        match lang_arg(toks[0]) {
            Option::Some(v) => {
                if v.len() == 0 {
                    Result::Err("lang value cannot be empty"@)
                } else if acc is Some {
                    Result::Err("duplicate lang token"@)
                } else {
                    parse_lang_list(toks.drop_first(), Option::Some(v), ctx)
                }
            },
            Option::None => Result::Err(
                "unexpected token '"@ + toks[0] + "' for "@ + ctx,
            ),
        }
    }
}

/// What a command line parses to: the grammar of the control socket.
/// An empty line is a plain toggle.
pub open spec fn parse_request_model(s: Seq<char>) -> Result<CommandModel, Seq<char>> {
    let toks = tokenize(s);
    if toks.len() == 0 {
        Result::Ok(CommandModel::Toggle { lang: Option::None })
    } else if toks[0] == "toggle"@ {
        match parse_lang_list(toks.drop_first(), Option::None, "toggle"@) {
            Result::Ok(lang) => Result::Ok(CommandModel::Toggle { lang }),
            Result::Err(e) => Result::Err(e),
        }
    } else if toks[0] == "status"@ {
        if toks.len() > 1 {
            Result::Err("unexpected token '"@ + toks[1] + "' for "@ + "status"@)
        } else {
            Result::Ok(CommandModel::Status)
        }
    } else if toks[0] == "set-language"@ {
        match parse_lang_list(toks.drop_first(), Option::None, "set-language"@) {
            Result::Ok(Option::Some(lang)) => Result::Ok(CommandModel::SetLanguage { lang }),
            Result::Ok(Option::None) => Result::Err("missing lang=<CODE>"@),
            Result::Err(e) => Result::Err(e),
        }
    } else if toks[0] == "stop"@ {
        if toks.len() > 1 {
            Result::Err("unexpected token '"@ + toks[1] + "' for "@ + "stop"@)
        } else {
            Result::Ok(CommandModel::Stop)
        }
    } else {
        Result::Err("unsupported daemon command: "@ + toks[0])
    }
}

/// Builds the message for a token that does not belong to the command.
fn unexpected_token_msg(tok: &str, ctx: &str) -> (r: String)
    ensures
        r@ == "unexpected token '"@ + tok@ + "' for "@ + ctx@,
{
    let mut out: String = "unexpected token '".to_owned();
    out.append(tok);
    out.append("' for ");
    out.append(ctx);
    proof {
        assert(out@ =~= "unexpected token '"@ + tok@ + "' for "@ + ctx@);
    }
    out
}

/// The `lang=<CODE>` value of a token, when it has that shape.
fn lang_arg_of(tok: &str) -> (r: Option<String>)
    ensures
        match r {
            Option::Some(v) => lang_arg(tok@) == Option::Some(v@),
            Option::None => lang_arg(tok@) is None,
        },
{
    let n: usize = tok.unicode_len();
    proof {
        reveal_strlit("lang=");
    }
    if n >= 5 && tok.get_char(0) == 'l' && tok.get_char(1) == 'a' && tok.get_char(2) == 'n'
        && tok.get_char(3) == 'g' && tok.get_char(4) == '=' {
        proof {
            assert(tok@.take(5) =~= "lang="@);
        }
        Option::Some(tok.substring_char(5, n).to_owned())
    } else {
        proof {
            if tok@.len() >= 5 && tok@.take(5) == "lang="@ {
                assert(tok@.take(5)[0] == tok@[0]);
                assert(tok@.take(5)[1] == tok@[1]);
                assert(tok@.take(5)[2] == tok@[2]);
                assert(tok@.take(5)[3] == tok@[3]);
                assert(tok@.take(5)[4] == tok@[4]);
                assert(tok@[0] == 'l' && tok@[1] == 'a' && tok@[2] == 'n' && tok@[3] == 'g'
                    && tok@[4] == '=');
            }
        }
        Option::None
    }
}

/// Folds the `lang=` tokens of `tokens[1..]` as `parse_lang_list` describes.
fn collect_lang(tokens: &Vec<String>, ctx: &str) -> (r: Result<Option<String>, String>)
    requires
        tokens@.len() >= 1,
    ensures
        match r {
            Result::Ok(Option::Some(v)) => parse_lang_list(
                tokens.deep_view().drop_first(),
                Option::None,
                ctx@,
            ) == Result::<Option<Seq<char>>, Seq<char>>::Ok(Option::Some(v@)),
            Result::Ok(Option::None) => parse_lang_list(
                tokens.deep_view().drop_first(),
                Option::None,
                ctx@,
            ) == Result::<Option<Seq<char>>, Seq<char>>::Ok(Option::<Seq<char>>::None),
            Result::Err(m) => parse_lang_list(tokens.deep_view().drop_first(), Option::None, ctx@)
                == Result::<Option<Seq<char>>, Seq<char>>::Err(m@),
        },
{
    let ghost toks = tokens.deep_view();
    let mut acc: Option<String> = Option::None;
    let mut idx: usize = 1;
    while idx < tokens.len()
        invariant
            1 <= idx <= tokens@.len(),
            toks == tokens.deep_view(),
            toks.len() == tokens@.len(),
            parse_lang_list(toks.drop_first(), Option::None, ctx@) == parse_lang_list(
                toks.skip(idx as int),
                match acc {
                    Option::None => Option::<Seq<char>>::None,
                    Option::Some(v) => Option::Some(v@),
                },
                ctx@,
            ),
        decreases tokens@.len() - idx,
    {
        proof {
            assert(toks.skip(idx as int)[0] == tokens@[idx as int]@);
            assert(toks.skip(idx as int).drop_first() =~= toks.skip(idx + 1));
        }
        match lang_arg_of(&tokens[idx]) {
            Option::Some(v) => {
                if v.as_str().is_empty() {
                    return Result::Err("lang value cannot be empty".to_owned());
                }
                if acc.is_some() {
                    return Result::Err("duplicate lang token".to_owned());
                }
                acc = Option::Some(v);
            },
            Option::None => {
                return Result::Err(unexpected_token_msg(tokens[idx].as_str(), ctx));
            },
        }
        idx = idx + 1;
    }
    proof {
        assert(toks.skip(toks.len() as int) =~= Seq::<Seq<char>>::empty());
    }
    Result::Ok(acc)
}

/// Parses one command line of the control protocol: `toggle [lang=CODE]`,
/// `status`, `set-language lang=CODE` or `stop`, tokens separated by ASCII
/// whitespace (the protocol's deliberate separator set). The error is the
/// message for the first offending token.
pub fn parse_control_request(command: &str) -> (r: Result<ControlRequest, String>)
    ensures
        match r {
            Result::Ok(req) => {
                &&& parse_request_model(command@) == Result::<CommandModel, Seq<char>>::Ok(
                    command_model(req.command),
                )
                &&& req.api_version@ == "1"@
            },
            Result::Err(m) => parse_request_model(command@) == Result::<
                CommandModel,
                Seq<char>,
            >::Err(m@),
        },
{
    let tokens = tokenize_str(command);
    let ghost toks = tokenize(command@);
    if tokens.len() == 0 {
        return Result::Ok(ControlRequest::new(ControlCommand::toggle(Option::None)));
    }
    proof {
        assert(toks[0] == tokens@[0]@);
    }
    let action = &tokens[0];
    if crate::text::str_eq(action.as_str(), "toggle") {
        match collect_lang(&tokens, "toggle") {
            Result::Ok(lang) => Result::Ok(ControlRequest::new(ControlCommand::toggle(lang))),
            Result::Err(m) => Result::Err(m),
        }
    } else if crate::text::str_eq(action.as_str(), "status") {
        if tokens.len() > 1 {
            proof {
                assert(toks[1] == tokens@[1]@);
            }
            Result::Err(unexpected_token_msg(tokens[1].as_str(), "status"))
        } else {
            Result::Ok(ControlRequest::new(ControlCommand::Status))
        }
    } else if crate::text::str_eq(action.as_str(), "set-language") {
        match collect_lang(&tokens, "set-language") {
            Result::Ok(Option::Some(lang)) => Result::Ok(
                ControlRequest::new(ControlCommand::set_language(lang)),
            ),
            Result::Ok(Option::None) => Result::Err("missing lang=<CODE>".to_owned()),
            Result::Err(m) => Result::Err(m),
        }
    } else if crate::text::str_eq(action.as_str(), "stop") {
        if tokens.len() > 1 {
            proof {
                assert(toks[1] == tokens@[1]@);
            }
            Result::Err(unexpected_token_msg(tokens[1].as_str(), "stop"))
        } else {
            Result::Ok(ControlRequest::new(ControlCommand::Stop))
        }
    } else {
        let mut out: String = "unsupported daemon command: ".to_owned();
        out.append(action.as_str());
        proof {
            assert(out@ =~= "unsupported daemon command: "@ + toks[0]);
        }
        Result::Err(out)
    }
}

/// A JSON string literal: quote, escaped contents, quote.
pub open spec fn json_string(s: Seq<char>) -> Seq<char> {
    seq!['"'] + escape_chars(s) + seq!['"']
}

pub open spec fn json_bool(b: bool) -> Seq<char> {
    if b {
        "true"@
    } else {
        "false"@
    }
}

/// An optional string member: nothing when absent, a comma, the quoted name,
/// a colon and the quoted value when present.
pub open spec fn opt_string_member(name: Seq<char>, v: Option<String>) -> Seq<char> {
    match v {
        Option::None => Seq::empty(),
        Option::Some(s) => seq![','] + json_string(name) + seq![':'] + json_string(s@),
    }
}

/// The one-object JSON rendering of a control response, members in
/// declaration order, absent options skipped.
pub open spec fn response_json(r: ControlResponse) -> Seq<char> {
    "{\"api_version\":"@ + json_string(r.api_version@) + ",\"ok\":"@ + json_bool(r.ok)
        + opt_string_member("state"@, r.state) + opt_string_member("language"@, r.language)
        + opt_string_member("error"@, r.error) + opt_string_member("message"@, r.message) + "}"@
}

/// The tag and members contributed by one event variant.
pub open spec fn event_type_json(e: DaemonEventType) -> Seq<char> {
    match e {
        DaemonEventType::DaemonReady => "\"type\":\"daemon_ready\""@,
        DaemonEventType::RecordingStarted { language } => "\"type\":\"recording_started\",\"language\":"@
            + json_string(language@),
        DaemonEventType::RecordingStopped { language } => "\"type\":\"recording_stopped\",\"language\":"@
            + json_string(language@),
        DaemonEventType::TranscriptFinal { language, utterance, duration_ms, text } => "\"type\":\"transcript_final\",\"language\":"@
            + json_string(language@) + ",\"utterance\":"@ + dec_digits(utterance as nat)
            + ",\"duration_ms\":"@ + dec_digits(duration_ms as nat) + ",\"text\":"@ + json_string(
            text@,
        ),
        DaemonEventType::ModelLoaded { language, model_size, model_language } => "\"type\":\"model_loaded\",\"language\":"@
            + json_string(language@) + ",\"model_size\":"@ + json_string(model_size@)
            + ",\"model_language\":"@ + json_string(model_language@),
        DaemonEventType::Error { message } => "\"type\":\"error\",\"message\":"@ + json_string(
            message@,
        ),
    }
}

/// The one-object JSON rendering of a daemon event.
pub open spec fn event_json(e: DaemonEvent) -> Seq<char> {
    "{\"api_version\":"@ + json_string(e.api_version@) + ",\"timestamp\":"@ + json_string(
        e.timestamp@,
    ) + ","@ + event_type_json(e.event) + "}"@
}

/// The tag and members contributed by one command variant.
pub open spec fn command_json(c: ControlCommand) -> Seq<char> {
    match c {
        ControlCommand::Toggle { lang } => "\"command\":\"toggle\""@ + opt_string_member(
            "lang"@,
            lang,
        ),
        ControlCommand::Status => "\"command\":\"status\""@,
        ControlCommand::SetLanguage { lang } => "\"command\":\"set-language\",\"lang\":"@
            + json_string(lang@),
        ControlCommand::Stop => "\"command\":\"stop\""@,
    }
}

/// The one-object JSON rendering of a control request.
pub open spec fn request_json(r: ControlRequest) -> Seq<char> {
    "{\"api_version\":"@ + json_string(r.api_version@) + ","@ + command_json(r.command) + "}"@
}

/// Appends a quoted, escaped JSON string.
fn append_json_string(out: &mut String, s: &str)
    ensures
        final(out)@ == old(out)@ + json_string(s@),
{
    out.append("\"");
    let escaped = json_escape(s);
    out.append(escaped.as_str());
    out.append("\"");
    proof {
        assert(out@ =~= old(out)@ + json_string(s@)) by {
            assert("\""@ =~= seq!['"']) by {
                reveal_strlit("\"");
            }
        }
    }
}

/// Appends an optional string member as `opt_string_member` describes.
fn append_opt_member(out: &mut String, name: &str, v: &Option<String>)
    ensures
        final(out)@ == old(out)@ + opt_string_member(name@, *v),
{
    match v {
        Option::None => {
            proof {
                assert(out@ =~= old(out)@ + opt_string_member(name@, *v));
            }
        },
        Option::Some(s) => {
            out.append(",");
            append_json_string(out, name);
            out.append(":");
            append_json_string(out, s.as_str());
            proof {
                assert(","@ =~= seq![',']) by {
                    reveal_strlit(",");
                }
                assert(":"@ =~= seq![':']) by {
                    reveal_strlit(":");
                }
                assert(out@ =~= old(out)@ + opt_string_member(name@, *v));
            }
        },
    }
}

impl ControlResponse {
    /// One JSON object on one line: the wire form of this response.
    pub fn to_json_line(&self) -> (r: String)
        ensures
            r@ == response_json(*self) + "\n"@,
    {
        let mut out = String::new();
        out.append("{\"api_version\":");
        append_json_string(&mut out, self.api_version.as_str());
        out.append(",\"ok\":");
        if self.ok {
            out.append("true");
        } else {
            out.append("false");
        }
        append_opt_member(&mut out, "state", &self.state);
        append_opt_member(&mut out, "language", &self.language);
        append_opt_member(&mut out, "error", &self.error);
        append_opt_member(&mut out, "message", &self.message);
        out.append("}");
        out.append("\n");
        proof {
            assert(out@ =~= response_json(*self) + "\n"@);
        }
        out
    }
}

impl DaemonEvent {
    /// One JSON object on one line: the wire form of this event.
    pub fn to_json_line(&self) -> (r: String)
        ensures
            r@ == event_json(*self) + "\n"@,
    {
        let mut out = String::new();
        out.append("{\"api_version\":");
        append_json_string(&mut out, self.api_version.as_str());
        out.append(",\"timestamp\":");
        append_json_string(&mut out, self.timestamp.as_str());
        out.append(",");
        match &self.event {
            DaemonEventType::DaemonReady => {
                out.append("\"type\":\"daemon_ready\"");
            },
            DaemonEventType::RecordingStarted { language } => {
                out.append("\"type\":\"recording_started\",\"language\":");
                append_json_string(&mut out, language.as_str());
            },
            DaemonEventType::RecordingStopped { language } => {
                out.append("\"type\":\"recording_stopped\",\"language\":");
                append_json_string(&mut out, language.as_str());
            },
            DaemonEventType::TranscriptFinal { language, utterance, duration_ms, text } => {
                out.append("\"type\":\"transcript_final\",\"language\":");
                append_json_string(&mut out, language.as_str());
                out.append(",\"utterance\":");
                let u = u64_to_string(*utterance);
                out.append(u.as_str());
                out.append(",\"duration_ms\":");
                let d = u64_to_string(*duration_ms);
                out.append(d.as_str());
                out.append(",\"text\":");
                append_json_string(&mut out, text.as_str());
            },
            DaemonEventType::ModelLoaded { language, model_size, model_language } => {
                out.append("\"type\":\"model_loaded\",\"language\":");
                append_json_string(&mut out, language.as_str());
                out.append(",\"model_size\":");
                append_json_string(&mut out, model_size.as_str());
                out.append(",\"model_language\":");
                append_json_string(&mut out, model_language.as_str());
            },
            DaemonEventType::Error { message } => {
                out.append("\"type\":\"error\",\"message\":");
                append_json_string(&mut out, message.as_str());
            },
        }
        out.append("}");
        out.append("\n");
        proof {
            assert(out@ =~= event_json(*self) + "\n"@);
        }
        out
    }
}

impl ControlRequest {
    /// One JSON object on one line: the wire form of this request.
    pub fn to_json_line(&self) -> (r: String)
        ensures
            r@ == request_json(*self) + "\n"@,
    {
        let mut out = String::new();
        out.append("{\"api_version\":");
        append_json_string(&mut out, self.api_version.as_str());
        out.append(",");
        match &self.command {
            ControlCommand::Toggle { lang } => {
                out.append("\"command\":\"toggle\"");
                append_opt_member(&mut out, "lang", lang);
            },
            ControlCommand::Status => {
                out.append("\"command\":\"status\"");
            },
            ControlCommand::SetLanguage { lang } => {
                out.append("\"command\":\"set-language\",\"lang\":");
                append_json_string(&mut out, lang.as_str());
            },
            ControlCommand::Stop => {
                out.append("\"command\":\"stop\"");
            },
        }
        out.append("}");
        out.append("\n");
        proof {
            assert(out@ =~= request_json(*self) + "\n"@);
        }
        out
    }
}

/// What reading one optional string member can find.
pub enum FieldModel {
    Missing,
    Text(Seq<char>),
    Null,
    Bad,
}

/// Reads a member as an optional string: absent, a string, an explicit
/// null, or something of another shape.
pub open spec fn sp_text_field(
    ps: Seq<(Seq<char>, crate::json::JsonValueModel)>,
    name: Seq<char>,
) -> FieldModel {
    match crate::json::sp_lookup(ps, name) {
        Option::None => FieldModel::Missing,
        Option::Some(crate::json::JsonValueModel::Text(s)) => FieldModel::Text(s),
        Option::Some(crate::json::JsonValueModel::Nothing) => FieldModel::Null,
        Option::Some(v) => FieldModel::Bad,
    }
}

/// The ghost image of a parsed control response.
pub struct ResponseModel {
    pub api_version: Seq<char>,
    pub ok: bool,
    pub state: Option<Seq<char>>,
    pub language: Option<Seq<char>>,
    pub error: Option<Seq<char>>,
    pub message: Option<Seq<char>>,
}

pub open spec fn response_view(r: ControlResponse) -> ResponseModel {
    ResponseModel {
        api_version: r.api_version@,
        ok: r.ok,
        state: match r.state {
            Option::None => Option::None,
            Option::Some(s) => Option::Some(s@),
        },
        language: match r.language {
            Option::None => Option::None,
            Option::Some(s) => Option::Some(s@),
        },
        error: match r.error {
            Option::None => Option::None,
            Option::Some(s) => Option::Some(s@),
        },
        message: match r.message {
            Option::None => Option::None,
            Option::Some(s) => Option::Some(s@),
        },
    }
}

/// Turns a read optional member into the option it stands for; `Bad` has no
/// reading.
pub open spec fn sp_opt_of(f: FieldModel) -> Option<Seq<char>> {
    match f {
        FieldModel::Text(s) => Option::Some(s),
        _ => Option::None,
    }
}

/// What a control-response line parses to: the object must carry a boolean
/// `ok`; `api_version` defaults to `1` when absent; the four optional
/// members may be strings or null; members of any other shape reject the
/// line; unknown members are ignored.
pub open spec fn sp_parse_response(s: Seq<char>) -> Option<ResponseModel> {
    match crate::json::sp_object(s) {
        Option::None => Option::None,
        Option::Some(ps) => match crate::json::sp_lookup(ps, "ok"@) {
            Option::Some(crate::json::JsonValueModel::Truth(ok)) => {
                let api = sp_text_field(ps, "api_version"@);
                let state = sp_text_field(ps, "state"@);
                let language = sp_text_field(ps, "language"@);
                let error = sp_text_field(ps, "error"@);
                let message = sp_text_field(ps, "message"@);
                if api is Bad || api is Null || state is Bad || language is Bad || error is Bad
                    || message is Bad {
                    Option::None
                } else {
                    Option::Some(
                        ResponseModel {
                            api_version: match api {
                                FieldModel::Text(a) => a,
                                _ => "1"@,
                            },
                            ok,
                            state: sp_opt_of(state),
                            language: sp_opt_of(language),
                            error: sp_opt_of(error),
                            message: sp_opt_of(message),
                        },
                    )
                }
            },
            _ => Option::None,
        },
    }
}

/// One read optional string member.
pub enum FieldRead {
    Missing,
    Text(String),
    Null,
    Bad,
}

pub open spec fn field_read_model(f: FieldRead) -> FieldModel {
    match f {
        FieldRead::Missing => FieldModel::Missing,
        FieldRead::Text(s) => FieldModel::Text(s@),
        FieldRead::Null => FieldModel::Null,
        FieldRead::Bad => FieldModel::Bad,
    }
}

/// Reads a member as an optional string.
fn read_text_field(pairs: &Vec<(String, crate::json::JsonValue)>, name: &str) -> (r: FieldRead)
    ensures
        field_read_model(r) == sp_text_field(crate::json::pairs_model(pairs@), name@),
{
    match crate::json::lookup(pairs, name) {
        Option::None => FieldRead::Missing,
        Option::Some(v) => match v {
            crate::json::JsonValue::Text(s) => FieldRead::Text(s.clone()),
            crate::json::JsonValue::Nothing => FieldRead::Null,
            _ => FieldRead::Bad,
        },
    }
}

impl ControlResponse {
    /// Parses the one JSON object on a response line; the message says when
    /// the line is not of the accepted shape.
    pub fn from_json_line(line: &str) -> (r: Result<ControlResponse, String>)
        ensures
            match r {
                Result::Ok(resp) => sp_parse_response(line@) == Option::Some(response_view(resp)),
                Result::Err(m) => sp_parse_response(line@) is None,
            },
    {
        let pairs = match crate::json::parse_object(line) {
            Option::None => {
                return Result::Err("invalid JSON object".to_owned());
            },
            Option::Some(pairs) => pairs,
        };
        let ok: bool = match crate::json::lookup(&pairs, "ok") {
            Option::Some(crate::json::JsonValue::Truth(b)) => *b,
            _ => {
                return Result::Err("missing boolean 'ok' member".to_owned());
            },
        };
        let api = read_text_field(&pairs, "api_version");
        let state = read_text_field(&pairs, "state");
        let language = read_text_field(&pairs, "language");
        let error = read_text_field(&pairs, "error");
        let message = read_text_field(&pairs, "message");
        let api_version: String = match api {
            FieldRead::Text(a) => a,
            FieldRead::Missing => api_version_string(),
            _ => {
                return Result::Err("member of unexpected shape".to_owned());
            },
        };
        let state = match opt_of(state) {
            Result::Ok(v) => v,
            Result::Err(m) => {
                return Result::Err(m);
            },
        };
        let language = match opt_of(language) {
            Result::Ok(v) => v,
            Result::Err(m) => {
                return Result::Err(m);
            },
        };
        let error = match opt_of(error) {
            Result::Ok(v) => v,
            Result::Err(m) => {
                return Result::Err(m);
            },
        };
        let message = match opt_of(message) {
            Result::Ok(v) => v,
            Result::Err(m) => {
                return Result::Err(m);
            },
        };
        Result::Ok(ControlResponse { api_version, ok, state, language, error, message })
    }
}

/// Turns a read member into the option it stands for, rejecting `Bad`.
fn opt_of(f: FieldRead) -> (r: Result<Option<String>, String>)
    ensures
        match r {
            Result::Ok(v) => !(field_read_model(f) is Bad) && sp_opt_of(field_read_model(f))
                == (match v {
                Option::None => Option::<Seq<char>>::None,
                Option::Some(s) => Option::Some(s@),
            }),
            Result::Err(m) => field_read_model(f) is Bad,
        },
{
    match f {
        FieldRead::Text(s) => Result::Ok(Option::Some(s)),
        FieldRead::Missing => Result::Ok(Option::None),
        FieldRead::Null => Result::Ok(Option::None),
        FieldRead::Bad => Result::Err("member of unexpected shape".to_owned()),
    }
}

/// The ghost image of a parsed control request.
pub struct RequestModel {
    pub api_version: Seq<char>,
    pub command: CommandModel,
}

pub open spec fn request_view(r: ControlRequest) -> RequestModel {
    RequestModel { api_version: r.api_version@, command: command_model(r.command) }
}

/// What a request line parses to: the object must carry a string `command`
/// naming one of the four commands; `toggle` may carry a `lang` string
/// (null and absent both mean none); `set-language` must carry one;
/// `api_version` defaults to `1`.
pub open spec fn sp_parse_request(s: Seq<char>) -> Option<RequestModel> {
    match crate::json::sp_object(s) {
        Option::None => Option::None,
        Option::Some(ps) => match sp_text_field(ps, "command"@) {
            FieldModel::Text(cmd) => {
                let api = sp_text_field(ps, "api_version"@);
                let lang = sp_text_field(ps, "lang"@);
                if api is Bad || api is Null || lang is Bad {
                    Option::None
                } else {
                    let api_version = match api {
                        FieldModel::Text(a) => a,
                        _ => "1"@,
                    };
                    if cmd == "toggle"@ {
                        Option::Some(
                            RequestModel {
                                api_version,
                                command: CommandModel::Toggle { lang: sp_opt_of(lang) },
                            },
                        )
                    } else if cmd == "status"@ {
                        Option::Some(RequestModel { api_version, command: CommandModel::Status })
                    } else if cmd == "set-language"@ {
                        match lang {
                            FieldModel::Text(code) => Option::Some(
                                RequestModel {
                                    api_version,
                                    command: CommandModel::SetLanguage { lang: code },
                                },
                            ),
                            _ => Option::None,
                        }
                    } else if cmd == "stop"@ {
                        Option::Some(RequestModel { api_version, command: CommandModel::Stop })
                    } else {
                        Option::None
                    }
                }
            },
            _ => Option::None,
        },
    }
}

impl ControlRequest {
    /// Parses the one JSON object on a request line.
    pub fn from_json_line(line: &str) -> (r: Result<ControlRequest, String>)
        ensures
            match r {
                Result::Ok(req) => sp_parse_request(line@) == Option::Some(request_view(req)),
                Result::Err(m) => sp_parse_request(line@) is None,
            },
    {
        let pairs = match crate::json::parse_object(line) {
            Option::None => {
                return Result::Err("invalid JSON object".to_owned());
            },
            Option::Some(pairs) => pairs,
        };
        let cmd: String = match read_text_field(&pairs, "command") {
            FieldRead::Text(c) => c,
            _ => {
                return Result::Err("missing string 'command' member".to_owned());
            },
        };
        let api = read_text_field(&pairs, "api_version");
        let lang = read_text_field(&pairs, "lang");
        let api_version: String = match api {
            FieldRead::Text(a) => a,
            FieldRead::Missing => api_version_string(),
            _ => {
                return Result::Err("member of unexpected shape".to_owned());
            },
        };
        let lang = match opt_of(lang) {
            Result::Ok(v) => v,
            Result::Err(m) => {
                return Result::Err(m);
            },
        };
        if crate::text::str_eq(cmd.as_str(), "toggle") {
            Result::Ok(ControlRequest { api_version, command: ControlCommand::Toggle { lang } })
        } else if crate::text::str_eq(cmd.as_str(), "status") {
            Result::Ok(ControlRequest { api_version, command: ControlCommand::Status })
        } else if crate::text::str_eq(cmd.as_str(), "set-language") {
            match lang {
                Option::Some(code) => Result::Ok(
                    ControlRequest {
                        api_version,
                        command: ControlCommand::SetLanguage { lang: code },
                    },
                ),
                Option::None => Result::Err("missing 'lang' member".to_owned()),
            }
        } else if crate::text::str_eq(cmd.as_str(), "stop") {
            Result::Ok(ControlRequest { api_version, command: ControlCommand::Stop })
        } else {
            Result::Err("unknown command".to_owned())
        }
    }
}

/// The ghost image of a parsed event line.
pub struct EventLineModel {
    pub api_version: Seq<char>,
    pub timestamp: Seq<char>,
    pub event: crate::daemon::EventModel,
}

pub open spec fn event_view(e: DaemonEvent) -> EventLineModel {
    EventLineModel {
        api_version: e.api_version@,
        timestamp: e.timestamp@,
        event: crate::daemon::event_model(e.event),
    }
}

/// Reads a member as an unsigned integer.
pub open spec fn sp_uint_field(
    ps: Seq<(Seq<char>, crate::json::JsonValueModel)>,
    name: Seq<char>,
) -> Option<nat> {
    match crate::json::sp_lookup(ps, name) {
        Option::Some(crate::json::JsonValueModel::UInt(n)) => Option::Some(n),
        _ => Option::None,
    }
}

/// What an event line parses to: the object must carry a string `type`
/// naming the variant and a string `timestamp`; each variant's members must
/// be present with their own shapes; `api_version` defaults to `1`.
pub open spec fn sp_parse_event(s: Seq<char>) -> Option<EventLineModel> {
    match crate::json::sp_object(s) {
        Option::None => Option::None,
        Option::Some(ps) => match (sp_text_field(ps, "type"@), sp_text_field(ps, "timestamp"@)) {
            (FieldModel::Text(tag), FieldModel::Text(timestamp)) => {
                let api = sp_text_field(ps, "api_version"@);
                if api is Bad || api is Null {
                    Option::None
                } else {
                    let api_version = match api {
                        FieldModel::Text(a) => a,
                        _ => "1"@,
                    };
                    match sp_parse_event_type(ps, tag) {
                        Option::Some(event) => Option::Some(
                            EventLineModel { api_version, timestamp, event },
                        ),
                        Option::None => Option::None,
                    }
                }
            },
            _ => Option::None,
        },
    }
}

/// The variant a tag and its members stand for.
pub open spec fn sp_parse_event_type(
    ps: Seq<(Seq<char>, crate::json::JsonValueModel)>,
    tag: Seq<char>,
) -> Option<crate::daemon::EventModel> {
    if tag == "daemon_ready"@ {
        Option::Some(crate::daemon::EventModel::Ready)
    } else if tag == "recording_started"@ {
        match sp_text_field(ps, "language"@) {
            FieldModel::Text(language) => Option::Some(
                crate::daemon::EventModel::Started { language },
            ),
            _ => Option::None,
        }
    } else if tag == "recording_stopped"@ {
        match sp_text_field(ps, "language"@) {
            FieldModel::Text(language) => Option::Some(
                crate::daemon::EventModel::Stopped { language },
            ),
            _ => Option::None,
        }
    } else if tag == "transcript_final"@ {
        match (sp_text_field(ps, "language"@), sp_text_field(ps, "text"@)) {
            (FieldModel::Text(language), FieldModel::Text(text)) => {
                match (sp_uint_field(ps, "utterance"@), sp_uint_field(ps, "duration_ms"@)) {
                    (Option::Some(utterance), Option::Some(duration_ms)) => Option::Some(
                        crate::daemon::EventModel::Transcript {
                            language,
                            utterance,
                            duration_ms,
                            text,
                        },
                    ),
                    _ => Option::None,
                }
            },
            _ => Option::None,
        }
    } else if tag == "model_loaded"@ {
        match (
            sp_text_field(ps, "language"@),
            sp_text_field(ps, "model_size"@),
            sp_text_field(ps, "model_language"@),
        ) {
            (
                FieldModel::Text(language),
                FieldModel::Text(model_size),
                FieldModel::Text(model_language),
            ) => Option::Some(
                crate::daemon::EventModel::Loaded { language, model_size, model_language },
            ),
            _ => Option::None,
        }
    } else if tag == "error"@ {
        match sp_text_field(ps, "message"@) {
            FieldModel::Text(message) => Option::Some(
                crate::daemon::EventModel::Failed { message },
            ),
            _ => Option::None,
        }
    } else {
        Option::None
    }
}

/// Reads a member as an unsigned integer.
fn read_uint_field(pairs: &Vec<(String, crate::json::JsonValue)>, name: &str) -> (r: Option<u64>)
    ensures
        match r {
            Option::Some(n) => sp_uint_field(crate::json::pairs_model(pairs@), name@)
                == Option::Some(n as nat),
            Option::None => sp_uint_field(crate::json::pairs_model(pairs@), name@) is None,
        },
{
    match crate::json::lookup(pairs, name) {
        Option::Some(crate::json::JsonValue::UInt(n)) => Option::Some(*n),
        _ => Option::None,
    }
}

/// Reads a member that must be a string.
fn read_required_text(pairs: &Vec<(String, crate::json::JsonValue)>, name: &str) -> (r: Option<
    String,
>)
    ensures
        match r {
            Option::Some(s) => sp_text_field(crate::json::pairs_model(pairs@), name@)
                == FieldModel::Text(s@),
            Option::None => !(sp_text_field(crate::json::pairs_model(pairs@), name@) is Text),
        },
{
    match read_text_field(pairs, name) {
        FieldRead::Text(s) => Option::Some(s),
        _ => Option::None,
    }
}

impl DaemonEvent {
    /// Parses the one JSON object on an event line.
    pub fn from_json_line(line: &str) -> (r: Result<DaemonEvent, String>)
        ensures
            match r {
                Result::Ok(event) => sp_parse_event(line@) == Option::Some(event_view(event)),
                Result::Err(m) => sp_parse_event(line@) is None,
            },
    {
        let pairs = match crate::json::parse_object(line) {
            Option::None => {
                return Result::Err("invalid JSON object".to_owned());
            },
            Option::Some(pairs) => pairs,
        };
        let tag: String = match read_required_text(&pairs, "type") {
            Option::Some(t) => t,
            Option::None => {
                return Result::Err("missing string 'type' member".to_owned());
            },
        };
        let timestamp: String = match read_required_text(&pairs, "timestamp") {
            Option::Some(t) => t,
            Option::None => {
                return Result::Err("missing string 'timestamp' member".to_owned());
            },
        };
        let api = read_text_field(&pairs, "api_version");
        let api_version: String = match api {
            FieldRead::Text(a) => a,
            FieldRead::Missing => api_version_string(),
            _ => {
                return Result::Err("member of unexpected shape".to_owned());
            },
        };
        let event: DaemonEventType = if crate::text::str_eq(tag.as_str(), "daemon_ready") {
            DaemonEventType::DaemonReady
        } else if crate::text::str_eq(tag.as_str(), "recording_started") {
            match read_required_text(&pairs, "language") {
                Option::Some(language) => DaemonEventType::RecordingStarted { language },
                Option::None => {
                    return Result::Err("missing string 'language' member".to_owned());
                },
            }
        } else if crate::text::str_eq(tag.as_str(), "recording_stopped") {
            match read_required_text(&pairs, "language") {
                Option::Some(language) => DaemonEventType::RecordingStopped { language },
                Option::None => {
                    return Result::Err("missing string 'language' member".to_owned());
                },
            }
        } else if crate::text::str_eq(tag.as_str(), "transcript_final") {
            let language = match read_required_text(&pairs, "language") {
                Option::Some(v) => v,
                Option::None => {
                    return Result::Err("missing string 'language' member".to_owned());
                },
            };
            let text = match read_required_text(&pairs, "text") {
                Option::Some(v) => v,
                Option::None => {
                    return Result::Err("missing string 'text' member".to_owned());
                },
            };
            let utterance = match read_uint_field(&pairs, "utterance") {
                Option::Some(v) => v,
                Option::None => {
                    return Result::Err("missing integer 'utterance' member".to_owned());
                },
            };
            let duration_ms = match read_uint_field(&pairs, "duration_ms") {
                Option::Some(v) => v,
                Option::None => {
                    return Result::Err("missing integer 'duration_ms' member".to_owned());
                },
            };
            DaemonEventType::TranscriptFinal { language, utterance, duration_ms, text }
        } else if crate::text::str_eq(tag.as_str(), "model_loaded") {
            let language = match read_required_text(&pairs, "language") {
                Option::Some(v) => v,
                Option::None => {
                    return Result::Err("missing string 'language' member".to_owned());
                },
            };
            let model_size = match read_required_text(&pairs, "model_size") {
                Option::Some(v) => v,
                Option::None => {
                    return Result::Err("missing string 'model_size' member".to_owned());
                },
            };
            let model_language = match read_required_text(&pairs, "model_language") {
                Option::Some(v) => v,
                Option::None => {
                    return Result::Err("missing string 'model_language' member".to_owned());
                },
            };
            DaemonEventType::ModelLoaded { language, model_size, model_language }
        } else if crate::text::str_eq(tag.as_str(), "error") {
            match read_required_text(&pairs, "message") {
                Option::Some(message) => DaemonEventType::Error { message },
                Option::None => {
                    return Result::Err("missing string 'message' member".to_owned());
                },
            }
        } else {
            return Result::Err("unknown event type".to_owned());
        };
        Result::Ok(DaemonEvent { api_version, timestamp, event })
    }
}

/// One optional member of a response line, as written.
pub open spec fn opt_member_triple(name: Seq<char>, v: Option<String>) -> Seq<
    (Seq<char>, Seq<char>, crate::json::JsonValueModel),
> {
    match v {
        Option::None => Seq::empty(),
        Option::Some(s) => seq![(name, json_string(s@), crate::json::JsonValueModel::Text(s@))],
    }
}

/// The members of a response line, in writing order.
pub open spec fn response_members(r: ControlResponse) -> Seq<
    (Seq<char>, Seq<char>, crate::json::JsonValueModel),
> {
    seq![
        (
            "api_version"@,
            json_string(r.api_version@),
            crate::json::JsonValueModel::Text(r.api_version@),
        ),
        ("ok"@, json_bool(r.ok), crate::json::JsonValueModel::Truth(r.ok)),
    ] + opt_member_triple("state"@, r.state) + opt_member_triple("language"@, r.language)
        + opt_member_triple("error"@, r.error) + opt_member_triple("message"@, r.message)
}

/// The names a response line writes are plain and its values are
/// self-delimited.
proof fn lemma_response_members_wf(r: ControlResponse)
    ensures
        response_members(r).len() >= 2,
        forall|i: int|
            0 <= i < response_members(r).len() ==> crate::json::plain_chars(
                #[trigger] response_members(r)[i].0,
            ) && crate::json::value_self_delimited(
                response_members(r)[i].1,
                response_members(r)[i].2,
            ) && response_members(r)[i].1.len() > 0 && !crate::text::is_space_char(
                response_members(r)[i].1[0],
            ),
{
    reveal_strlit("api_version");
    reveal_strlit("ok");
    reveal_strlit("state");
    reveal_strlit("language");
    reveal_strlit("error");
    reveal_strlit("message");
    reveal_strlit("true");
    reveal_strlit("false");
    let ms = response_members(r);
    assert(crate::json::plain_chars("api_version"@));
    assert(crate::json::plain_chars("ok"@));
    assert(crate::json::plain_chars("state"@));
    assert(crate::json::plain_chars("language"@));
    assert(crate::json::plain_chars("error"@));
    assert(crate::json::plain_chars("message"@));
    crate::json::lemma_string_value_delimited(r.api_version@);
    crate::json::lemma_bool_value_delimited(r.ok);
    if r.state is Some {
        crate::json::lemma_string_value_delimited(r.state->0@);
    }
    if r.language is Some {
        crate::json::lemma_string_value_delimited(r.language->0@);
    }
    if r.error is Some {
        crate::json::lemma_string_value_delimited(r.error->0@);
    }
    if r.message is Some {
        crate::json::lemma_string_value_delimited(r.message->0@);
    }
    assert(json_bool(r.ok).len() > 0 && !crate::text::is_space_char(json_bool(r.ok)[0]));
    assert forall|i: int|
        0 <= i < ms.len() implies crate::json::plain_chars(#[trigger] ms[i].0)
        && crate::json::value_self_delimited(ms[i].1, ms[i].2) && ms[i].1.len() > 0
        && !crate::text::is_space_char(ms[i].1[0]) by {
        if ms[i].2 is Text {
            let s = ms[i].2->Text_0;
            assert(ms[i].1 == json_string(s));
            assert(ms[i].1[0] == '"');
        }
    }
}

/// Reading back a written response line recovers the response: the
/// serializer and the parser are exact inverses on every `ControlResponse`.
#[verifier::rlimit(100)]
pub proof fn lemma_response_round_trip(r: ControlResponse)
    ensures
        sp_parse_response(response_json(r) + "\n"@) == Option::Some(response_view(r)),
{
    reveal_strlit("api_version");
    reveal_strlit("ok");
    reveal_strlit("state");
    reveal_strlit("language");
    reveal_strlit("error");
    reveal_strlit("message");
    reveal_strlit("{\"api_version\":");
    reveal_strlit(",\"ok\":");
    reveal_strlit("}");
    reveal_strlit("\n");
    reveal_strlit("1");
    let ms = response_members(r);
    lemma_response_members_wf(r);
    assert(response_json(r) + "\n"@ =~= seq!['{'] + crate::json::spec_members_text(ms)
        + seq!['}'] + seq!['\n']) by {
        lemma_response_line_shape(r);
    }
    assert forall|i: int|
        0 <= i < ms.len() implies crate::json::plain_chars(#[trigger] ms[i].0)
        && crate::json::value_self_delimited(ms[i].1, ms[i].2) && ms[i].1.len() > 0
        && !crate::text::is_space_char(ms[i].1[0]) by {
        assert(crate::json::plain_chars(response_members(r)[i].0));
        assert(crate::json::value_self_delimited(
            response_members(r)[i].1,
            response_members(r)[i].2,
        ));
        assert(response_members(r)[i].1.len() > 0);
        assert(!crate::text::is_space_char(response_members(r)[i].1[0]));
        assert(ms[i] == response_members(r)[i]);
    }
    crate::json::lemma_object_round_trip(ms);
    let ps = crate::json::spec_members_pairs(ms);
    assert(crate::json::sp_object(response_json(r) + "\n"@) == Option::Some(ps));
    lemma_response_fields(r);
}

/// The rendering of the member list, member by member.
#[verifier::rlimit(100)]
proof fn lemma_response_members_text(r: ControlResponse)
    ensures
        crate::json::spec_members_text(response_members(r)) =~= crate::json::spec_member_head(
            response_members(r)[0],
        ) + seq![','] + crate::json::spec_member_head(response_members(r)[1]) + opt_member_text(
            "state"@,
            r.state,
        ) + opt_member_text("language"@, r.language) + opt_member_text("error"@, r.error)
            + opt_member_text("message"@, r.message),
{
    let ms = response_members(r);
    let ms2 = seq![ms[0], ms[1]];
    assert(crate::json::spec_members_text(ms2) == crate::json::spec_member_head(ms[0]) + seq![',']
        + crate::json::spec_member_head(ms[1])) by {
        assert(ms2.drop_first() =~= seq![ms[1]]);
        assert(crate::json::spec_members_text(seq![ms[1]]) == crate::json::spec_member_head(
            ms[1],
        ));
    }
    let with_state = ms2 + opt_member_triple("state"@, r.state);
    let with_lang = with_state + opt_member_triple("language"@, r.language);
    let with_err = with_lang + opt_member_triple("error"@, r.error);
    assert(ms =~= with_err + opt_member_triple("message"@, r.message));
    if r.state is Some {
        assert(with_state =~= ms2.push(with_state[2]));
        crate::json::lemma_members_text_push(ms2, with_state[2]);
    } else {
        assert(with_state =~= ms2);
    }
    assert(crate::json::spec_members_text(with_state) =~= crate::json::spec_members_text(ms2)
        + opt_member_text("state"@, r.state));
    if r.language is Some {
        assert(with_lang =~= with_state.push(with_lang[with_state.len() as int]));
        crate::json::lemma_members_text_push(with_state, with_lang[with_state.len() as int]);
    } else {
        assert(with_lang =~= with_state);
    }
    assert(crate::json::spec_members_text(with_lang) =~= crate::json::spec_members_text(
        with_state,
    ) + opt_member_text("language"@, r.language));
    if r.error is Some {
        assert(with_err =~= with_lang.push(with_err[with_lang.len() as int]));
        crate::json::lemma_members_text_push(with_lang, with_err[with_lang.len() as int]);
    } else {
        assert(with_err =~= with_lang);
    }
    assert(crate::json::spec_members_text(with_err) =~= crate::json::spec_members_text(with_lang)
        + opt_member_text("error"@, r.error));
    if r.message is Some {
        assert(ms =~= with_err.push(ms[with_err.len() as int]));
        crate::json::lemma_members_text_push(with_err, ms[with_err.len() as int]);
    } else {
        assert(ms =~= with_err);
    }
    assert(crate::json::spec_members_text(ms) =~= crate::json::spec_members_text(with_err)
        + opt_member_text("message"@, r.message));
}

/// What one optional member contributes to the members text.
pub open spec fn opt_member_text(name: Seq<char>, v: Option<String>) -> Seq<char> {
    match v {
        Option::None => Seq::empty(),
        Option::Some(s) => seq![','] + crate::json::spec_member_head(
            (name, json_string(s@), crate::json::JsonValueModel::Text(s@)),
        ),
    }
}

/// An optional member is written as its serializer writes it.
proof fn lemma_opt_member_text(name: Seq<char>, v: Option<String>)
    requires
        crate::json::plain_chars(name),
    ensures
        opt_member_text(name, v) =~= opt_string_member(name, v),
{
    crate::json::lemma_escape_plain(name);
    match v {
        Option::None => {},
        Option::Some(s) => {
            assert(opt_member_text(name, v) =~= seq![','] + json_string(name) + seq![':']
                + json_string(s@));
        },
    }
}

/// The serializer's concatenation is the member-list rendering.
#[verifier::rlimit(100)]
proof fn lemma_response_line_shape(r: ControlResponse)
    ensures
        response_json(r) + "\n"@ =~= seq!['{'] + crate::json::spec_members_text(
            response_members(r),
        ) + seq!['}'] + seq!['\n'],
{
    reveal_strlit("api_version");
    reveal_strlit("ok");
    reveal_strlit("state");
    reveal_strlit("language");
    reveal_strlit("error");
    reveal_strlit("message");
    reveal_strlit("{\"api_version\":");
    reveal_strlit(",\"ok\":");
    reveal_strlit("}");
    reveal_strlit("\n");
    let ms = response_members(r);
    crate::json::lemma_escape_plain("api_version"@);
    crate::json::lemma_escape_plain("state"@);
    crate::json::lemma_escape_plain("language"@);
    crate::json::lemma_escape_plain("error"@);
    crate::json::lemma_escape_plain("message"@);
    lemma_response_members_text(r);
    lemma_opt_member_text("state"@, r.state);
    lemma_opt_member_text("language"@, r.language);
    lemma_opt_member_text("error"@, r.error);
    lemma_opt_member_text("message"@, r.message);
    assert("{\"api_version\":"@ =~= seq!['{'] + seq!['"'] + "api_version"@ + seq!['"', ':']);
    assert(",\"ok\":"@ =~= seq![','] + seq!['"'] + "ok"@ + seq!['"', ':']);
    assert(seq!['{'] + crate::json::spec_member_head(ms[0]) =~= "{\"api_version\":"@
        + json_string(r.api_version@));
    assert(seq![','] + crate::json::spec_member_head(ms[1]) =~= ",\"ok\":"@ + json_bool(r.ok));
    assert("}"@ =~= seq!['}']);
    assert("\n"@ =~= seq!['\n']);
    assert(response_json(r) + "\n"@ =~= seq!['{'] + crate::json::spec_members_text(ms)
        + seq!['}'] + seq!['\n']);
}

/// The field reads on a written response's pairs recover the fields.
#[verifier::rlimit(100)]
proof fn lemma_response_fields(r: ControlResponse)
    requires
        crate::json::sp_object(response_json(r) + "\n"@) == Option::Some(
            crate::json::spec_members_pairs(response_members(r)),
        ),
    ensures
        sp_parse_response(response_json(r) + "\n"@) == Option::Some(response_view(r)),
{
    reveal_strlit("api_version");
    reveal_strlit("ok");
    reveal_strlit("state");
    reveal_strlit("language");
    reveal_strlit("error");
    reveal_strlit("message");
    let ms = response_members(r);
    let ps = crate::json::spec_members_pairs(ms);
    assert("api_version"@.len() == 11 && "ok"@.len() == 2 && "state"@.len() == 5
        && "language"@.len() == 8 && "error"@.len() == 5 && "message"@.len() == 7);
    assert("api_version"@ != "ok"@ && "api_version"@ != "state"@ && "api_version"@ != "language"@
        && "api_version"@ != "error"@ && "api_version"@ != "message"@);
    assert("ok"@ != "state"@ && "ok"@ != "language"@ && "ok"@ != "error"@ && "ok"@ != "message"@);
    assert("state"@ != "language"@ && "state"@ != "message"@);
    assert("state"@ != "error"@) by {
        assert("state"@[0] == 's' && "error"@[0] == 'e');
    }
    assert("language"@ != "error"@ && "language"@ != "message"@);
    assert("error"@ != "message"@);
    lemma_lookup_field(ms, 0, "api_version"@);
    lemma_lookup_field(ms, 1, "ok"@);
    assert(crate::json::sp_lookup(ps, "api_version"@) == Option::Some(ms[0].2));
    assert(crate::json::sp_lookup(ps, "ok"@) == Option::Some(ms[1].2));
    let state_idx: int = 2;
    if r.state is Some {
        lemma_lookup_field(ms, state_idx, "state"@);
    } else {
        lemma_lookup_absent(ms, "state"@);
    }
    let lang_idx: int = 2 + (if r.state is Some {
        1int
    } else {
        0int
    });
    if r.language is Some {
        lemma_lookup_field(ms, lang_idx, "language"@);
    } else {
        lemma_lookup_absent(ms, "language"@);
    }
    let err_idx: int = lang_idx + (if r.language is Some {
        1int
    } else {
        0int
    });
    if r.error is Some {
        lemma_lookup_field(ms, err_idx, "error"@);
    } else {
        lemma_lookup_absent(ms, "error"@);
    }
    let msg_idx: int = err_idx + (if r.error is Some {
        1int
    } else {
        0int
    });
    if r.message is Some {
        lemma_lookup_field(ms, msg_idx, "message"@);
    } else {
        lemma_lookup_absent(ms, "message"@);
    }
}

/// The member at `idx` is the first of its name, so looking the name up
/// finds it.
proof fn lemma_lookup_field(
    ms: Seq<(Seq<char>, Seq<char>, crate::json::JsonValueModel)>,
    idx: int,
    name: Seq<char>,
)
    requires
        0 <= idx < ms.len(),
        ms[idx].0 == name,
        forall|j: int| 0 <= j < idx ==> (#[trigger] ms[j].0) != name,
    ensures
        crate::json::sp_lookup(crate::json::spec_members_pairs(ms), name) == Option::Some(
            ms[idx].2,
        ),
    decreases idx,
{
    let ps = crate::json::spec_members_pairs(ms);
    if idx == 0 {
        assert(ps[0].0 == name);
    } else {
        assert(ps[0].0 == ms[0].0);
        crate::json::lemma_lookup_miss(ps, name);
        assert(ps.drop_first() =~= crate::json::spec_members_pairs(ms.drop_first()));
        assert forall|j: int| 0 <= j < idx - 1 implies (#[trigger] ms.drop_first()[j].0)
            != name by {
            assert(ms.drop_first()[j] == ms[j + 1]);
        }
        lemma_lookup_field(ms.drop_first(), idx - 1, name);
    }
}

/// A name no member carries is not found among the pairs.
proof fn lemma_lookup_absent(
    ms: Seq<(Seq<char>, Seq<char>, crate::json::JsonValueModel)>,
    name: Seq<char>,
)
    requires
        forall|j: int| 0 <= j < ms.len() ==> (#[trigger] ms[j].0) != name,
    ensures
        crate::json::sp_lookup(crate::json::spec_members_pairs(ms), name) is None,
{
    let ps = crate::json::spec_members_pairs(ms);
    assert forall|j: int| 0 <= j < ps.len() implies (#[trigger] ps[j].0) != name by {
        assert(ps[j].0 == ms[j].0);
    }
    crate::json::lemma_lookup_none(ps, name);
}

/// The tag a command is written under.
pub open spec fn command_tag(c: ControlCommand) -> Seq<char> {
    match c {
        ControlCommand::Toggle { lang } => "toggle"@,
        ControlCommand::Status => "status"@,
        ControlCommand::SetLanguage { lang } => "set-language"@,
        ControlCommand::Stop => "stop"@,
    }
}

/// The `lang` member a command carries, if any.
pub open spec fn command_lang(c: ControlCommand) -> Option<String> {
    match c {
        ControlCommand::Toggle { lang } => lang,
        ControlCommand::SetLanguage { lang } => Option::Some(lang),
        _ => Option::None,
    }
}

/// The members of a request line, in writing order.
pub open spec fn request_members(q: ControlRequest) -> Seq<
    (Seq<char>, Seq<char>, crate::json::JsonValueModel),
> {
    seq![
        (
            "api_version"@,
            json_string(q.api_version@),
            crate::json::JsonValueModel::Text(q.api_version@),
        ),
        (
            "command"@,
            json_string(command_tag(q.command)),
            crate::json::JsonValueModel::Text(command_tag(q.command)),
        ),
    ] + opt_member_triple("lang"@, command_lang(q.command))
}

/// The names a request line writes are plain and its values are
/// self-delimited.
proof fn lemma_request_members_wf(q: ControlRequest)
    ensures
        request_members(q).len() >= 2,
        forall|i: int|
            0 <= i < request_members(q).len() ==> crate::json::plain_chars(
                #[trigger] request_members(q)[i].0,
            ) && crate::json::value_self_delimited(
                request_members(q)[i].1,
                request_members(q)[i].2,
            ) && request_members(q)[i].1.len() > 0 && !crate::text::is_space_char(
                request_members(q)[i].1[0],
            ),
{
    reveal_strlit("api_version");
    reveal_strlit("command");
    reveal_strlit("lang");
    let ms = request_members(q);
    assert(crate::json::plain_chars("api_version"@));
    assert(crate::json::plain_chars("command"@));
    assert(crate::json::plain_chars("lang"@));
    crate::json::lemma_string_value_delimited(q.api_version@);
    crate::json::lemma_string_value_delimited(command_tag(q.command));
    if command_lang(q.command) is Some {
        crate::json::lemma_string_value_delimited(command_lang(q.command)->0@);
    }
    assert forall|i: int|
        0 <= i < ms.len() implies crate::json::plain_chars(#[trigger] ms[i].0)
        && crate::json::value_self_delimited(ms[i].1, ms[i].2) && ms[i].1.len() > 0
        && !crate::text::is_space_char(ms[i].1[0]) by {
        if ms[i].2 is Text {
            let s = ms[i].2->Text_0;
            assert(ms[i].1 == json_string(s));
            assert(ms[i].1[0] == '"');
        }
    }
}

/// The serializer's concatenation is the member-list rendering.
#[verifier::rlimit(100)]
proof fn lemma_request_line_shape(q: ControlRequest)
    ensures
        request_json(q) + "\n"@ =~= seq!['{'] + crate::json::spec_members_text(
            request_members(q),
        ) + seq!['}'] + seq!['\n'],
{
    reveal_strlit("api_version");
    reveal_strlit("command");
    reveal_strlit("lang");
    reveal_strlit("toggle");
    reveal_strlit("status");
    reveal_strlit("set-language");
    reveal_strlit("stop");
    reveal_strlit("{\"api_version\":");
    reveal_strlit(",");
    reveal_strlit("\"command\":\"toggle\"");
    reveal_strlit("\"command\":\"status\"");
    reveal_strlit("\"command\":\"set-language\",\"lang\":");
    reveal_strlit("\"command\":\"stop\"");
    reveal_strlit("}");
    reveal_strlit("\n");
    let ms = request_members(q);
    crate::json::lemma_escape_plain("api_version"@);
    crate::json::lemma_escape_plain("command"@);
    crate::json::lemma_escape_plain("lang"@);
    crate::json::lemma_escape_plain("toggle"@);
    crate::json::lemma_escape_plain("status"@);
    crate::json::lemma_escape_plain("set-language"@);
    crate::json::lemma_escape_plain("stop"@);
    let ms2 = seq![ms[0], ms[1]];
    assert(crate::json::spec_members_text(ms2) == crate::json::spec_member_head(ms[0]) + seq![',']
        + crate::json::spec_member_head(ms[1])) by {
        assert(ms2.drop_first() =~= seq![ms[1]]);
        assert(crate::json::spec_members_text(seq![ms[1]]) == crate::json::spec_member_head(
            ms[1],
        ));
    }
    assert(ms =~= ms2 + opt_member_triple("lang"@, command_lang(q.command)));
    if command_lang(q.command) is Some {
        assert(ms =~= ms2.push(ms[2]));
        crate::json::lemma_members_text_push(ms2, ms[2]);
    } else {
        assert(ms =~= ms2);
    }
    assert(crate::json::spec_members_text(ms) =~= crate::json::spec_members_text(ms2)
        + opt_member_text("lang"@, command_lang(q.command)));
    lemma_opt_member_text("lang"@, command_lang(q.command));
    assert("{\"api_version\":"@ =~= seq!['{'] + seq!['"'] + "api_version"@ + seq!['"', ':']);
    assert(","@ =~= seq![',']);
    match q.command {
        ControlCommand::Toggle { lang } => {
            assert("\"command\":\"toggle\""@ =~= seq!['"'] + "command"@ + seq!['"', ':']
                + json_string("toggle"@));
        },
        ControlCommand::Status => {
            assert("\"command\":\"status\""@ =~= seq!['"'] + "command"@ + seq!['"', ':']
                + json_string("status"@));
        },
        ControlCommand::SetLanguage { lang } => {
            assert("\"command\":\"set-language\",\"lang\":"@ =~= seq!['"'] + "command"@ + seq![
                '"',
                ':',
            ] + json_string("set-language"@) + seq![','] + seq!['"'] + "lang"@ + seq!['"', ':']);
        },
        ControlCommand::Stop => {
            assert("\"command\":\"stop\""@ =~= seq!['"'] + "command"@ + seq!['"', ':']
                + json_string("stop"@));
        },
    }
    assert("}"@ =~= seq!['}']);
    assert("\n"@ =~= seq!['\n']);
    assert(request_json(q) + "\n"@ =~= seq!['{'] + crate::json::spec_members_text(ms)
        + seq!['}'] + seq!['\n']);
}

/// Reading back a written request line recovers the request: the serializer
/// and the parser are exact inverses on every `ControlRequest`.
#[verifier::rlimit(100)]
pub proof fn lemma_request_round_trip(q: ControlRequest)
    ensures
        sp_parse_request(request_json(q) + "\n"@) == Option::Some(request_view(q)),
{
    reveal_strlit("api_version");
    reveal_strlit("command");
    reveal_strlit("lang");
    reveal_strlit("toggle");
    reveal_strlit("status");
    reveal_strlit("set-language");
    reveal_strlit("stop");
    let ms = request_members(q);
    lemma_request_members_wf(q);
    assert(request_json(q) + "\n"@ =~= seq!['{'] + crate::json::spec_members_text(ms)
        + seq!['}'] + seq!['\n']) by {
        lemma_request_line_shape(q);
    }
    assert forall|i: int|
        0 <= i < ms.len() implies crate::json::plain_chars(#[trigger] ms[i].0)
        && crate::json::value_self_delimited(ms[i].1, ms[i].2) && ms[i].1.len() > 0
        && !crate::text::is_space_char(ms[i].1[0]) by {
        assert(crate::json::plain_chars(request_members(q)[i].0));
        assert(crate::json::value_self_delimited(
            request_members(q)[i].1,
            request_members(q)[i].2,
        ));
        assert(request_members(q)[i].1.len() > 0);
        assert(!crate::text::is_space_char(request_members(q)[i].1[0]));
        assert(ms[i] == request_members(q)[i]);
    }
    crate::json::lemma_object_round_trip(ms);
    let ps = crate::json::spec_members_pairs(ms);
    assert(crate::json::sp_object(request_json(q) + "\n"@) == Option::Some(ps));
    assert("api_version"@.len() == 11 && "command"@.len() == 7 && "lang"@.len() == 4);
    assert("api_version"@ != "command"@ && "api_version"@ != "lang"@ && "command"@ != "lang"@);
    lemma_lookup_field(ms, 0, "api_version"@);
    lemma_lookup_field(ms, 1, "command"@);
    if command_lang(q.command) is Some {
        lemma_lookup_field(ms, 2, "lang"@);
    } else {
        lemma_lookup_absent(ms, "lang"@);
    }
    assert("toggle"@.len() == 6 && "status"@.len() == 6 && "set-language"@.len() == 12
        && "stop"@.len() == 4);
    assert("toggle"@ != "status"@) by {
        assert("toggle"@[0] == 't' && "status"@[0] == 's');
    }
}

/// The tag an event variant is written under.
pub open spec fn event_tag(ev: DaemonEventType) -> Seq<char> {
    match ev {
        DaemonEventType::DaemonReady => "daemon_ready"@,
        DaemonEventType::RecordingStarted { .. } => "recording_started"@,
        DaemonEventType::RecordingStopped { .. } => "recording_stopped"@,
        DaemonEventType::TranscriptFinal { .. } => "transcript_final"@,
        DaemonEventType::ModelLoaded { .. } => "model_loaded"@,
        DaemonEventType::Error { .. } => "error"@,
    }
}

/// One written string member.
pub open spec fn text_member_triple(name: Seq<char>, v: Seq<char>) -> (
    Seq<char>,
    Seq<char>,
    crate::json::JsonValueModel,
) {
    (name, json_string(v), crate::json::JsonValueModel::Text(v))
}

/// One written number member.
pub open spec fn uint_member_triple(name: Seq<char>, n: nat) -> (
    Seq<char>,
    Seq<char>,
    crate::json::JsonValueModel,
) {
    (name, dec_digits(n), crate::json::JsonValueModel::UInt(n))
}

/// The members a variant contributes after its tag.
pub open spec fn event_variant_members(ev: DaemonEventType) -> Seq<
    (Seq<char>, Seq<char>, crate::json::JsonValueModel),
> {
    match ev {
        DaemonEventType::DaemonReady => Seq::empty(),
        DaemonEventType::RecordingStarted { language } => seq![
            text_member_triple("language"@, language@),
        ],
        DaemonEventType::RecordingStopped { language } => seq![
            text_member_triple("language"@, language@),
        ],
        DaemonEventType::TranscriptFinal { language, utterance, duration_ms, text } => seq![
            text_member_triple("language"@, language@),
            uint_member_triple("utterance"@, utterance as nat),
            uint_member_triple("duration_ms"@, duration_ms as nat),
            text_member_triple("text"@, text@),
        ],
        DaemonEventType::ModelLoaded { language, model_size, model_language } => seq![
            text_member_triple("language"@, language@),
            text_member_triple("model_size"@, model_size@),
            text_member_triple("model_language"@, model_language@),
        ],
        DaemonEventType::Error { message } => seq![text_member_triple("message"@, message@)],
    }
}

/// The members of an event line, in writing order.
pub open spec fn event_members(e: DaemonEvent) -> Seq<
    (Seq<char>, Seq<char>, crate::json::JsonValueModel),
> {
    seq![
        text_member_triple("api_version"@, e.api_version@),
        text_member_triple("timestamp"@, e.timestamp@),
        text_member_triple("type"@, event_tag(e.event)),
    ] + event_variant_members(e.event)
}

/// A rendered number is non-empty and starts with a digit.
proof fn lemma_dec_digits_head(n: nat)
    ensures
        dec_digits(n).len() >= 1,
        crate::text::is_digit_char(dec_digits(n)[0]),
        !crate::text::is_space_char(dec_digits(n)[0]),
    decreases n,
{
    if n >= 10 {
        lemma_dec_digits_head(n / 10);
        assert(dec_digits(n)[0] == dec_digits(n / 10)[0]);
    }
}

/// The names an event line writes are plain and its values are
/// self-delimited.
proof fn lemma_event_members_wf(e: DaemonEvent)
    ensures
        event_members(e).len() >= 3,
        forall|i: int|
            0 <= i < event_members(e).len() ==> crate::json::plain_chars(
                #[trigger] event_members(e)[i].0,
            ) && crate::json::value_self_delimited(
                event_members(e)[i].1,
                event_members(e)[i].2,
            ) && event_members(e)[i].1.len() > 0 && !crate::text::is_space_char(
                event_members(e)[i].1[0],
            ),
{
    reveal_strlit("api_version");
    reveal_strlit("timestamp");
    reveal_strlit("type");
    reveal_strlit("language");
    reveal_strlit("utterance");
    reveal_strlit("duration_ms");
    reveal_strlit("text");
    reveal_strlit("model_size");
    reveal_strlit("model_language");
    reveal_strlit("message");
    let ms = event_members(e);
    assert(crate::json::plain_chars("api_version"@));
    assert(crate::json::plain_chars("timestamp"@));
    assert(crate::json::plain_chars("type"@));
    assert(crate::json::plain_chars("language"@));
    assert(crate::json::plain_chars("utterance"@));
    assert(crate::json::plain_chars("duration_ms"@));
    assert(crate::json::plain_chars("text"@));
    assert(crate::json::plain_chars("model_size"@));
    assert(crate::json::plain_chars("model_language"@));
    assert(crate::json::plain_chars("message"@));
    assert forall|i: int|
        0 <= i < event_members(e).len() implies crate::json::plain_chars(
        #[trigger] event_members(e)[i].0,
    ) && crate::json::value_self_delimited(event_members(e)[i].1, event_members(e)[i].2)
        && event_members(e)[i].1.len() > 0 && !crate::text::is_space_char(
        event_members(e)[i].1[0],
    ) by {
        let m = event_members(e)[i];
        if i >= 3 {
            assert(m == event_variant_members(e.event)[i - 3]);
            match e.event {
                DaemonEventType::DaemonReady => {
                    assert(false);
                },
                DaemonEventType::RecordingStarted { language } => {
                    assert(m.2 is Text);
                },
                DaemonEventType::RecordingStopped { language } => {
                    assert(m.2 is Text);
                },
                DaemonEventType::TranscriptFinal { language, utterance, duration_ms, text } => {
                    assert(m.2 is Text || m.2 is UInt);
                },
                DaemonEventType::ModelLoaded { language, model_size, model_language } => {
                    assert(m.2 is Text);
                },
                DaemonEventType::Error { message } => {
                    assert(m.2 is Text);
                },
            }
        } else {
            assert(m.2 is Text);
        }
        if m.2 is Text {
            let s = m.2->Text_0;
            assert(m.1 == json_string(s));
            crate::json::lemma_string_value_delimited(s);
            assert(m.1[0] == '"');
        } else {
            let n = m.2->UInt_0;
            assert(m.1 == dec_digits(n));
            assert(n <= u64::MAX);
            crate::json::lemma_uint_value_delimited(n);
            lemma_dec_digits_head(n);
        }
    }
}

/// The rendering of an event's member list, member by member.
#[verifier::rlimit(100)]
proof fn lemma_event_members_text(e: DaemonEvent)
    ensures
        crate::json::spec_members_text(event_members(e)) =~= crate::json::spec_member_head(
            event_members(e)[0],
        ) + seq![','] + crate::json::spec_member_head(event_members(e)[1]) + seq![',']
            + crate::json::spec_member_head(event_members(e)[2]) + variant_members_text(e.event),
{
    let ms = event_members(e);
    let ms2 = seq![ms[0], ms[1]];
    let ms3 = seq![ms[0], ms[1], ms[2]];
    assert(crate::json::spec_members_text(ms2) == crate::json::spec_member_head(ms[0]) + seq![',']
        + crate::json::spec_member_head(ms[1])) by {
        assert(ms2.drop_first() =~= seq![ms[1]]);
        assert(crate::json::spec_members_text(seq![ms[1]]) == crate::json::spec_member_head(
            ms[1],
        ));
    }
    assert(ms3 =~= ms2.push(ms[2]));
    crate::json::lemma_members_text_push(ms2, ms[2]);
    let vs = event_variant_members(e.event);
    assert(ms =~= ms3 + vs);
    if vs.len() == 0 {
        assert(ms =~= ms3);
    } else if vs.len() == 1 {
        assert(ms =~= ms3.push(ms[3]));
        crate::json::lemma_members_text_push(ms3, ms[3]);
    } else if vs.len() == 3 {
        let ms4 = ms3.push(ms[3]);
        let ms5 = ms4.push(ms[4]);
        assert(ms =~= ms5.push(ms[5]));
        crate::json::lemma_members_text_push(ms3, ms[3]);
        crate::json::lemma_members_text_push(ms4, ms[4]);
        crate::json::lemma_members_text_push(ms5, ms[5]);
    } else {
        let ms4 = ms3.push(ms[3]);
        let ms5 = ms4.push(ms[4]);
        let ms6 = ms5.push(ms[5]);
        assert(ms =~= ms6.push(ms[6]));
        crate::json::lemma_members_text_push(ms3, ms[3]);
        crate::json::lemma_members_text_push(ms4, ms[4]);
        crate::json::lemma_members_text_push(ms5, ms[5]);
        crate::json::lemma_members_text_push(ms6, ms[6]);
    }
}

/// What a variant's own members add to the text.
pub open spec fn variant_members_text(ev: DaemonEventType) -> Seq<char> {
    let vs = event_variant_members(ev);
    if vs.len() == 0 {
        Seq::empty()
    } else if vs.len() == 1 {
        seq![','] + crate::json::spec_member_head(vs[0])
    } else if vs.len() == 3 {
        seq![','] + crate::json::spec_member_head(vs[0]) + seq![',']
            + crate::json::spec_member_head(vs[1]) + seq![','] + crate::json::spec_member_head(
            vs[2],
        )
    } else {
        seq![','] + crate::json::spec_member_head(vs[0]) + seq![',']
            + crate::json::spec_member_head(vs[1]) + seq![','] + crate::json::spec_member_head(
            vs[2],
        ) + seq![','] + crate::json::spec_member_head(vs[3])
    }
}

/// The serializer's concatenation is the member-list rendering.
#[verifier::rlimit(100)]
proof fn lemma_event_line_shape(e: DaemonEvent)
    ensures
        event_json(e) + "\n"@ =~= seq!['{'] + crate::json::spec_members_text(event_members(e))
            + seq!['}'] + seq!['\n'],
{
    reveal_strlit("api_version");
    reveal_strlit("timestamp");
    reveal_strlit("type");
    reveal_strlit("language");
    reveal_strlit("utterance");
    reveal_strlit("duration_ms");
    reveal_strlit("text");
    reveal_strlit("model_size");
    reveal_strlit("model_language");
    reveal_strlit("message");
    reveal_strlit("daemon_ready");
    reveal_strlit("recording_started");
    reveal_strlit("recording_stopped");
    reveal_strlit("transcript_final");
    reveal_strlit("model_loaded");
    reveal_strlit("error");
    reveal_strlit("{\"api_version\":");
    reveal_strlit(",\"timestamp\":");
    reveal_strlit(",");
    reveal_strlit("}");
    reveal_strlit("\n");
    crate::json::lemma_escape_plain("api_version"@);
    crate::json::lemma_escape_plain("timestamp"@);
    crate::json::lemma_escape_plain("type"@);
    crate::json::lemma_escape_plain("language"@);
    crate::json::lemma_escape_plain("utterance"@);
    crate::json::lemma_escape_plain("duration_ms"@);
    crate::json::lemma_escape_plain("text"@);
    crate::json::lemma_escape_plain("model_size"@);
    crate::json::lemma_escape_plain("model_language"@);
    crate::json::lemma_escape_plain("message"@);
    crate::json::lemma_escape_plain("daemon_ready"@);
    crate::json::lemma_escape_plain("recording_started"@);
    crate::json::lemma_escape_plain("recording_stopped"@);
    crate::json::lemma_escape_plain("transcript_final"@);
    crate::json::lemma_escape_plain("model_loaded"@);
    crate::json::lemma_escape_plain("error"@);
    lemma_event_members_text(e);
    assert("{\"api_version\":"@ =~= seq!['{'] + seq!['"'] + "api_version"@ + seq!['"', ':']);
    assert(",\"timestamp\":"@ =~= seq![','] + seq!['"'] + "timestamp"@ + seq!['"', ':']);
    assert(","@ =~= seq![',']);
    assert("}"@ =~= seq!['}']);
    assert("\n"@ =~= seq!['\n']);
    match e.event {
        DaemonEventType::DaemonReady => {
            reveal_strlit("\"type\":\"daemon_ready\"");
            assert("\"type\":\"daemon_ready\""@ =~= seq!['"'] + "type"@ + seq!['"', ':']
                + json_string("daemon_ready"@));
        },
        DaemonEventType::RecordingStarted { language } => {
            reveal_strlit("\"type\":\"recording_started\",\"language\":");
            assert("\"type\":\"recording_started\",\"language\":"@ =~= seq!['"'] + "type"@
                + seq!['"', ':'] + json_string("recording_started"@) + seq![','] + seq!['"']
                + "language"@ + seq!['"', ':']);
        },
        DaemonEventType::RecordingStopped { language } => {
            reveal_strlit("\"type\":\"recording_stopped\",\"language\":");
            assert("\"type\":\"recording_stopped\",\"language\":"@ =~= seq!['"'] + "type"@
                + seq!['"', ':'] + json_string("recording_stopped"@) + seq![','] + seq!['"']
                + "language"@ + seq!['"', ':']);
        },
        DaemonEventType::TranscriptFinal { language, utterance, duration_ms, text } => {
            reveal_strlit("\"type\":\"transcript_final\",\"language\":");
            reveal_strlit(",\"utterance\":");
            reveal_strlit(",\"duration_ms\":");
            reveal_strlit(",\"text\":");
            assert("\"type\":\"transcript_final\",\"language\":"@ =~= seq!['"'] + "type"@
                + seq!['"', ':'] + json_string("transcript_final"@) + seq![','] + seq!['"']
                + "language"@ + seq!['"', ':']);
            assert(",\"utterance\":"@ =~= seq![','] + seq!['"'] + "utterance"@ + seq!['"', ':']);
            assert(",\"duration_ms\":"@ =~= seq![','] + seq!['"'] + "duration_ms"@ + seq![
                '"',
                ':',
            ]);
            assert(",\"text\":"@ =~= seq![','] + seq!['"'] + "text"@ + seq!['"', ':']);
        },
        DaemonEventType::ModelLoaded { language, model_size, model_language } => {
            reveal_strlit("\"type\":\"model_loaded\",\"language\":");
            reveal_strlit(",\"model_size\":");
            reveal_strlit(",\"model_language\":");
            assert("\"type\":\"model_loaded\",\"language\":"@ =~= seq!['"'] + "type"@ + seq![
                '"',
                ':',
            ] + json_string("model_loaded"@) + seq![','] + seq!['"'] + "language"@ + seq![
                '"',
                ':',
            ]);
            assert(",\"model_size\":"@ =~= seq![','] + seq!['"'] + "model_size"@ + seq!['"', ':']);
            assert(",\"model_language\":"@ =~= seq![','] + seq!['"'] + "model_language"@ + seq![
                '"',
                ':',
            ]);
        },
        DaemonEventType::Error { message } => {
            reveal_strlit("\"type\":\"error\",\"message\":");
            assert("\"type\":\"error\",\"message\":"@ =~= seq!['"'] + "type"@ + seq!['"', ':']
                + json_string("error"@) + seq![','] + seq!['"'] + "message"@ + seq!['"', ':']);
        },
    }
    assert(event_json(e) + "\n"@ =~= seq!['{'] + crate::json::spec_members_text(event_members(e))
        + seq!['}'] + seq!['\n']);
}

/// Reading back a written event line recovers the event: the serializer and
/// the parser are exact inverses on every `DaemonEvent`.
#[verifier::rlimit(100)]
pub proof fn lemma_event_round_trip(e: DaemonEvent)
    ensures
        sp_parse_event(event_json(e) + "\n"@) == Option::Some(event_view(e)),
{
    reveal_strlit("api_version");
    reveal_strlit("timestamp");
    reveal_strlit("type");
    reveal_strlit("language");
    reveal_strlit("utterance");
    reveal_strlit("duration_ms");
    reveal_strlit("text");
    reveal_strlit("model_size");
    reveal_strlit("model_language");
    reveal_strlit("message");
    let ms = event_members(e);
    lemma_event_members_wf(e);
    assert(event_json(e) + "\n"@ =~= seq!['{'] + crate::json::spec_members_text(ms) + seq!['}']
        + seq!['\n']) by {
        lemma_event_line_shape(e);
    }
    assert forall|i: int|
        0 <= i < ms.len() implies crate::json::plain_chars(#[trigger] ms[i].0)
        && crate::json::value_self_delimited(ms[i].1, ms[i].2) && ms[i].1.len() > 0
        && !crate::text::is_space_char(ms[i].1[0]) by {
        assert(crate::json::plain_chars(event_members(e)[i].0));
        assert(crate::json::value_self_delimited(event_members(e)[i].1, event_members(e)[i].2));
        assert(event_members(e)[i].1.len() > 0);
        assert(!crate::text::is_space_char(event_members(e)[i].1[0]));
        assert(ms[i] == event_members(e)[i]);
    }
    crate::json::lemma_object_round_trip(ms);
    let ps = crate::json::spec_members_pairs(ms);
    assert(crate::json::sp_object(event_json(e) + "\n"@) == Option::Some(ps));
    lemma_event_fields(e);
}

/// The field reads on a written event's pairs recover the fields.
#[verifier::rlimit(100)]
proof fn lemma_event_fields(e: DaemonEvent)
    requires
        crate::json::sp_object(event_json(e) + "\n"@) == Option::Some(
            crate::json::spec_members_pairs(event_members(e)),
        ),
    ensures
        sp_parse_event(event_json(e) + "\n"@) == Option::Some(event_view(e)),
{
    reveal_strlit("api_version");
    reveal_strlit("timestamp");
    reveal_strlit("type");
    reveal_strlit("language");
    reveal_strlit("utterance");
    reveal_strlit("duration_ms");
    reveal_strlit("text");
    reveal_strlit("model_size");
    reveal_strlit("model_language");
    reveal_strlit("message");
    reveal_strlit("daemon_ready");
    reveal_strlit("recording_started");
    reveal_strlit("recording_stopped");
    reveal_strlit("transcript_final");
    reveal_strlit("model_loaded");
    reveal_strlit("error");
    let ms = event_members(e);
    let ps = crate::json::spec_members_pairs(ms);
    assert("api_version"@.len() == 11 && "timestamp"@.len() == 9 && "type"@.len() == 4
        && "language"@.len() == 8 && "utterance"@.len() == 9 && "duration_ms"@.len() == 11
        && "text"@.len() == 4 && "model_size"@.len() == 10 && "model_language"@.len() == 14
        && "message"@.len() == 7);
    assert("api_version"@ != "duration_ms"@) by {
        assert("api_version"@[0] == 'a' && "duration_ms"@[0] == 'd');
    }
    assert("timestamp"@ != "utterance"@) by {
        assert("timestamp"@[0] == 't' && "utterance"@[0] == 'u');
    }
    assert("type"@ != "text"@) by {
        assert("type"@[1] == 'y' && "text"@[1] == 'e');
    }
    lemma_lookup_field(ms, 0, "api_version"@);
    lemma_lookup_field(ms, 1, "timestamp"@);
    lemma_lookup_field(ms, 2, "type"@);
    assert("daemon_ready"@.len() == 12 && "recording_started"@.len() == 17 && "recording_stopped"@.len()
        == 17 && "transcript_final"@.len() == 16 && "model_loaded"@.len() == 12 && "error"@.len()
        == 5);
    assert("recording_started"@ != "recording_stopped"@) by {
        assert("recording_started"@[12] == 'a' && "recording_stopped"@[12] == 'o');
    }
    assert("daemon_ready"@ != "model_loaded"@) by {
        assert("daemon_ready"@[0] == 'd' && "model_loaded"@[0] == 'm');
    }
    match e.event {
        DaemonEventType::DaemonReady => {
        },
        DaemonEventType::RecordingStarted { language } => {
            lemma_lookup_field(ms, 3, "language"@);
        },
        DaemonEventType::RecordingStopped { language } => {
            lemma_lookup_field(ms, 3, "language"@);
        },
        DaemonEventType::TranscriptFinal { language, utterance, duration_ms, text } => {
            lemma_lookup_field(ms, 3, "language"@);
            lemma_lookup_field(ms, 4, "utterance"@);
            lemma_lookup_field(ms, 5, "duration_ms"@);
            lemma_lookup_field(ms, 6, "text"@);
        },
        DaemonEventType::ModelLoaded { language, model_size, model_language } => {
            lemma_lookup_field(ms, 3, "language"@);
            lemma_lookup_field(ms, 4, "model_size"@);
            lemma_lookup_field(ms, 5, "model_language"@);
        },
        DaemonEventType::Error { message } => {
            lemma_lookup_field(ms, 3, "message"@);
        },
    }
}

/// Parses one response line.
pub fn parse_control_response(line: &str) -> (r: Result<ControlResponse, String>)
    ensures
        match r {
            Result::Ok(resp) => sp_parse_response(line@) == Option::Some(response_view(resp)),
            Result::Err(m) => sp_parse_response(line@) is None,
        },
{
    ControlResponse::from_json_line(line)
}

} // verus!
