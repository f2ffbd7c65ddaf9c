//! Transcript delivery formatting, and the diagnosis of a session without a
//! graphical display. Running the injection tools and reading the
//! environment stay with the binary; the messages and decisions are here.
use vstd::prelude::*;

verus! {

use vstd::string::StringExecFns;
use crate::audio::SegmentInfo;
use crate::text::dec_digits;
use crate::text::escape_chars;
use crate::text::u64_to_string;
use crate::text::json_escape;

#[derive(Debug)]
pub struct OutputError {
    pub message: String,
}

impl OutputError {
    pub fn new(message: String) -> (r: OutputError)
        ensures
            r.message == message,
    {
        OutputError { message }
    }
}

/// Whether both backends failed for want of a graphical session: the error
/// list names both the missing Wayland and the missing X11 session.
pub fn missing_graphical_session(errors: &Vec<String>) -> (r: bool)
    ensures
        r == ((exists|i: int|
            0 <= i < errors@.len() && errors@[i]@ == "wayland session not detected"@) && (exists|
            j: int,
        |
            0 <= j < errors@.len() && errors@[j]@ == "x11 session not detected"@)),
{
    let wayland = contains_line(errors, "wayland session not detected");
    let x11 = contains_line(errors, "x11 session not detected");
    wayland && x11
}

/// Whether some entry equals `needle`.
fn contains_line(errors: &Vec<String>, needle: &str) -> (r: bool)
    ensures
        r == exists|i: int| 0 <= i < errors@.len() && errors@[i]@ == needle@,
{
    let mut i: usize = 0;
    while i < errors.len()
        invariant
            i <= errors@.len(),
            forall|j: int| 0 <= j < i ==> errors@[j]@ != needle@,
        decreases errors@.len() - i,
    {
        if crate::text::str_eq(errors[i].as_str(), needle) {
            return true;
        }
        i = i + 1;
    }
    false
}

/// The items joined with `"; "` between them.
pub open spec fn join_errors(items: Seq<Seq<char>>) -> Seq<char>
    decreases items.len(),
{
    if items.len() == 0 {
        Seq::empty()
    } else if items.len() == 1 {
        items[0]
    } else {
        items[0] + "; "@ + join_errors(items.drop_first())
    }
}

proof fn lemma_join_errors_snoc(items: Seq<Seq<char>>, x: Seq<char>)
    requires
        items.len() >= 1,
    ensures
        join_errors(items.push(x)) == join_errors(items) + "; "@ + x,
    decreases items.len(),
{
    if items.len() == 1 {
        assert(items.push(x).drop_first() =~= seq![x]);
        assert(join_errors(seq![x]) == x);
        assert(join_errors(items.push(x)) =~= join_errors(items) + "; "@ + x);
    } else {
        assert(items.push(x).drop_first() =~= items.drop_first().push(x));
        lemma_join_errors_snoc(items.drop_first(), x);
        assert(join_errors(items.push(x)) =~= join_errors(items) + "; "@ + x);
    }
}

/// The message when no injection backend could take the text: the failures
/// joined, with a hint about the session environment when both session
/// checks failed.
pub fn injection_failure_message(errors: &Vec<String>) -> (r: String)
    ensures
        r@ == "no supported injection backends available ("@ + join_errors(errors.deep_view())
            + ")"@ + (if ((exists|i: int|
            0 <= i < errors@.len() && errors@[i]@ == "wayland session not detected"@) && (exists|
            j: int,
        |
            0 <= j < errors@.len() && errors@[j]@ == "x11 session not detected"@)) {
            "; session environment missing (DISPLAY/WAYLAND_DISPLAY). If running via systemd user service, start it after graphical session (WantedBy=graphical-session.target)"@
        } else {
            Seq::<char>::empty()
        }),
{
    let ghost items = errors.deep_view();
    let mut joined: String = String::new();
    let mut i: usize = 0;
    while i < errors.len()
        invariant
            i <= errors@.len(),
            items == errors.deep_view(),
            items.len() == errors@.len(),
            joined@ == join_errors(items.take(i as int)),
        decreases errors@.len() - i,
    {
        proof {
            assert(items[i as int] == errors@[i as int]@);
        }
        if i > 0 {
            joined.append("; ");
        }
        joined.append(errors[i].as_str());
        i = i + 1;
        proof {
            assert(items.take(i as int) =~= items.take(i - 1).push(items[i - 1]));
            if i > 1 {
                lemma_join_errors_snoc(items.take(i - 1), items[i - 1]);
            } else {
                assert(join_errors(items.take(1)) == items[0]);
            }
            assert(joined@ =~= join_errors(items.take(i as int)));
        }
    }
    proof {
        assert(items.take(errors@.len() as int) =~= items);
    }
    let mut out: String = "no supported injection backends available (".to_owned();
    out.append(joined.as_str());
    out.append(")");
    if missing_graphical_session(errors) {
        out.append(
            "; session environment missing (DISPLAY/WAYLAND_DISPLAY). If running via systemd user service, start it after graphical session (WantedBy=graphical-session.target)",
        );
    }
    proof {
        assert(out@ =~= "no supported injection backends available ("@ + join_errors(items) + ")"@
            + (if ((exists|i: int|
            0 <= i < errors@.len() && errors@[i]@ == "wayland session not detected"@) && (exists|
            j: int,
        |
            0 <= j < errors@.len() && errors@[j]@ == "x11 session not detected"@)) {
            "; session environment missing (DISPLAY/WAYLAND_DISPLAY). If running via systemd user service, start it after graphical session (WantedBy=graphical-session.target)"@
        } else {
            Seq::<char>::empty()
        }));
    }
    out
}

/// The plain transcript line: `Transcript <index>: <text>`.
pub fn plain_transcript_line(text: &str, info: SegmentInfo) -> (r: String)
    ensures
        r@ == "Transcript "@ + dec_digits(info.index as nat) + ": "@ + text@,
{
    let mut out: String = "Transcript ".to_owned();
    let index = u64_to_string(info.index);
    out.append(index.as_str());
    out.append(": ");
    out.append(text);
    proof {
        assert(out@ =~= "Transcript "@ + dec_digits(info.index as nat) + ": "@ + text@);
    }
    out
}

/// The JSONL transcript line: one object carrying the kind tag, the
/// utterance index, the duration, the timestamp and the escaped text.
pub fn jsonl_transcript_line(text: &str, info: SegmentInfo, timestamp: &str) -> (r: String)
    ensures
        r@ == "{\"type\":\"final\",\"utterance\":"@ + dec_digits(info.index as nat)
            + ",\"duration_ms\":"@ + dec_digits(info.duration_ms as nat) + ",\"timestamp\":\""@
            + timestamp@ + "\",\"text\":\""@ + escape_chars(text@) + "\"}"@,
{
    let mut out: String = "{\"type\":\"final\",\"utterance\":".to_owned();
    let index = u64_to_string(info.index);
    out.append(index.as_str());
    out.append(",\"duration_ms\":");
    let duration = u64_to_string(info.duration_ms);
    out.append(duration.as_str());
    out.append(",\"timestamp\":\"");
    out.append(timestamp);
    out.append("\",\"text\":\"");
    let escaped = json_escape(text);
    out.append(escaped.as_str());
    out.append("\"}");
    proof {
        assert(out@ =~= "{\"type\":\"final\",\"utterance\":"@ + dec_digits(info.index as nat)
            + ",\"duration_ms\":"@ + dec_digits(info.duration_ms as nat) + ",\"timestamp\":\""@
            + timestamp@ + "\",\"text\":\""@ + escape_chars(text@) + "\"}"@);
    }
    out
}

} // verus!
