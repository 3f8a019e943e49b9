//! The external-translation client: provider selection, request prompt
//! construction, the per-unit retry state machine with exponential backoff
//! and bounded jitter, structured error extraction from provider responses,
//! and the run-report bookkeeping. The network exchange itself is performed
//! by the caller, which feeds each attempt's outcome into the state machine
//! and performs the sleeps and sends it decides on.

use rand::Rng;
use serde_json::Value;
use vstd::prelude::*;
use vstd::string::StrSliceExecFns;
use vstd::string::StringExecFns;

use crate::entry::{opt_view, CoreEntry, EntryStatus, EntryV};
use crate::strutil::{dec_of, u64_to_dec};
use crate::text::{trim_str, trim_ws};

verus! {

/// Configuration of one translation run: provider identifier, credential,
/// model identifier, and the language pair.
pub struct AiConfig {
    pub provider: String,
    pub api_key: String,
    pub model: String,
    pub source_lang: String,
    pub target_lang: String,
}

/// Outcome of one unit in a run: whether it was translated, and the last
/// error message when it was not.
pub struct AiItemResult {
    pub entry_id: String,
    pub ok: bool,
    pub error: Option<String>,
}

/// The mathematical value of a per-unit outcome.
#[verifier::ext_equal]
pub struct ItemV {
    pub entry_id: Seq<char>,
    pub ok: bool,
    pub error: Option<Seq<char>>,
}

impl View for AiItemResult {
    type V = ItemV;

    open spec fn view(&self) -> ItemV {
        ItemV { entry_id: self.entry_id@, ok: self.ok, error: opt_view(self.error) }
    }
}

/// The views of a sequence of per-unit outcomes.
pub open spec fn item_views(s: Seq<AiItemResult>) -> Seq<ItemV> {
    s.map_values(|x: AiItemResult| x@)
}

/// Summary of one run of the client: counts and per-unit outcomes.
pub struct AiRunReport {
    pub succeeded: usize,
    pub failed: usize,
    pub items: Vec<AiItemResult>,
}

impl AiRunReport {
    /// An empty report, before any unit has been processed.
    pub fn new() -> (r: Self)
        ensures
            r.succeeded == 0,
            r.failed == 0,
            r.items@.len() == 0,
    {
        AiRunReport { succeeded: 0, failed: 0, items: Vec::new() }
    }
}

/// Up to this many attempts are made for one unit.
pub const MAX_RETRIES: usize = 3;

/// Base backoff delay in milliseconds; attempt `i` waits this times `2^i`.
pub const BASE_DELAY_MS: u64 = 800;

/// Units are processed in batches of this size.
pub const BATCH_SIZE: usize = 5;

/// Seconds each provider request may take before the transport gives up.
pub const TIMEOUT_SECS: u64 = 60;

/// Picks the fixed endpoint for a provider identifier; an unknown identifier
/// is a configuration error, reported without any network attempt.
pub fn endpoint_for(provider: &str) -> (r: Result<&'static str, String>)
    ensures
        provider@ == "openai"@ ==> (r matches Ok(u)
            && u@ == "https://api.openai.com/v1/chat/completions"@),
        provider@ == "deepseek"@ ==> (r matches Ok(u)
            && u@ == "https://api.deepseek.com/v1/chat/completions"@),
        provider@ != "openai"@ && provider@ != "deepseek"@ ==> (r matches Err(m)
            && m@ == "Unsupported provider"@),
{
    proof {
        reveal_strlit("openai");
        reveal_strlit("deepseek");
        assert("openai"@.len() == 6);
        assert("deepseek"@.len() == 8);
        assert("openai"@ != "deepseek"@);
    }
    if crate::strutil::str_eq(provider, "openai") {
        Ok("https://api.openai.com/v1/chat/completions")
    } else if crate::strutil::str_eq(provider, "deepseek") {
        Ok("https://api.deepseek.com/v1/chat/completions")
    } else {
        Err("Unsupported provider".to_owned())
    }
}

/// A successful HTTP status, as the transport reports it.
pub open spec fn success_status(status: u16) -> bool {
    200 <= status < 300
}

/// A status on which the next attempt might plausibly succeed:
/// request-timeout, rate-limited, or any server error.
pub open spec fn retryable_status(status: u16) -> bool {
    status == 408 || status == 429 || (500 <= status < 600)
}

/// Whether a failed HTTP status is worth retrying.
pub fn should_retry_http(status: u16) -> (r: bool)
    ensures
        r == retryable_status(status),
{
    status == 408 || status == 429 || (500 <= status && status < 600)
}

/// The deterministic part of the backoff before the attempt after `attempt`:
/// the base delay doubled `attempt` times.
pub open spec fn backoff_base(attempt: nat) -> nat {
    800 * (if attempt == 0 {
        1nat
    } else if attempt == 1 {
        2nat
    } else {
        4nat
    })
}

/// Relies on `rand::thread_rng` and `rand::Rng::gen_range`: a random delay
/// jitter below 200 milliseconds; nothing else is assumed of the value.
#[verifier::external_body]
fn jitter_ms() -> (r: u64)
    ensures
        r < 200,
{
    rand::thread_rng().gen_range(0..200)
}

/// The delay in milliseconds to sleep after failed attempt index `attempt`:
/// the base delay doubled per attempt, plus a bounded random jitter.
pub fn backoff_ms(attempt: usize) -> (r: u64)
    requires
        attempt < 3,
    ensures
        backoff_base(attempt as nat) <= r < backoff_base(attempt as nat) + 200,
{
    let factor: u64 = if attempt == 0 {
        1
    } else if attempt == 1 {
        2
    } else {
        4
    };
    BASE_DELAY_MS * factor + jitter_ms()
}

/// The request prompt for one unit: the language pair, the attribution when
/// one is present and not blank, and the trimmed source text.
pub open spec fn prompt_spec(e: EntryV, sl: Seq<char>, tl: Seq<char>) -> Seq<char> {
    "Translate"@ + " from "@ + sl + " to "@ + tl + ".\n"@ + (match e.speaker {
        Some(sp) => if trim_ws(sp).len() > 0 {
            "Speaker: "@ + trim_ws(sp) + "\n"@
        } else {
            Seq::empty()
        },
        None => Seq::empty(),
    }) + "Text:\n"@ + trim_ws(e.original)
}

/// Builds the provider prompt for one unit.
pub fn build_prompt(entry: &CoreEntry, cfg: &AiConfig) -> (r: String)
    ensures
        r@ == prompt_spec(entry@, cfg.source_lang@, cfg.target_lang@),
{
    let mut p = String::new();
    p.append("Translate");
    p.append(" from ");
    p.append(cfg.source_lang.as_str());
    p.append(" to ");
    p.append(cfg.target_lang.as_str());
    p.append(".\n");
    match &entry.speaker {
        Some(sp) => {
            let t = trim_str(sp.as_str());
            if !t.is_empty() {
                p.append("Speaker: ");
                p.append(t);
                p.append("\n");
            }
        },
        None => {},
    }
    p.append("Text:\n");
    p.append(trim_str(entry.original.as_str()));
    proof {
        assert(p@ =~= prompt_spec(entry@, cfg.source_lang@, cfg.target_lang@));
    }
    p
}

/// Whether a provider response body parses as JSON at all, as
/// `serde_json::from_str` decides it. Depends on the body alone.
pub uninterp spec fn body_is_json(s: Seq<char>) -> bool;

/// The translated text inside a parsed provider response, at
/// `choices[0].message.content`, when the body is JSON and that field is a
/// string. Depends on the body alone.
pub uninterp spec fn chat_content_of(s: Seq<char>) -> Option<Seq<char>>;

/// What parsing a provider response body yields.
pub enum BodyContent {
    /// The body is not JSON.
    NotJson,
    /// The body is JSON but carries no `choices[0].message.content` string.
    NoContent,
    /// The translated text the provider returned.
    Content(String),
}

/// Relies on `serde_json::from_str`, `serde_json::Value::pointer` and
/// `serde_json::Value::as_str`: parses the response body and extracts the
/// `choices[0].message.content` string when it is present; the result
/// depends on the body alone.
#[verifier::external_body]
fn parse_chat_body(body: &str) -> (r: BodyContent)
    ensures
        match r {
            BodyContent::NotJson => !body_is_json(body@),
            BodyContent::NoContent => body_is_json(body@) && chat_content_of(body@) is None,
            BodyContent::Content(t) => body_is_json(body@) && chat_content_of(body@) == Some(t@),
        },
{
    match serde_json::from_str::<Value>(body) {
        Err(_) => BodyContent::NotJson,
        Ok(v) => match v.pointer("/choices/0/message/content") {
            Some(c) => match c.as_str() {
                Some(t) => BodyContent::Content(t.to_owned()),
                None => BodyContent::NoContent,
            },
            None => BodyContent::NoContent,
        },
    }
}

/// The structured error message inside an error response body: the string at
/// `error.message`, or at `message`, when the body is JSON and carries one.
/// Depends on the body alone.
pub uninterp spec fn err_field_of(s: Seq<char>) -> Option<Seq<char>>;

/// Relies on `serde_json::from_str`, `serde_json::Value::pointer` and
/// `serde_json::Value::as_str`: extracts the provider-supplied error message
/// from an error body; the result depends on the body alone.
#[verifier::external_body]
fn parse_error_field(body: &str) -> (r: Option<String>)
    ensures
        (r is Some) == (err_field_of(body@) is Some),
        r matches Some(m) ==> err_field_of(body@) == Some(m@),
{
    let v: Value = match serde_json::from_str(body) {
        Ok(v) => v,
        Err(_) => return None,
    };
    if let Some(m) = v.pointer("/error/message") {
        if let Some(s) = m.as_str() {
            return Some(s.to_owned());
        }
    }
    if let Some(m) = v.pointer("/message") {
        if let Some(s) = m.as_str() {
            return Some(s.to_owned());
        }
    }
    None
}

/// A raw response body shortened for the report: trimmed, and cut to 400
/// characters with a trailing ellipsis when longer.
pub open spec fn truncated_body(body: Seq<char>) -> Seq<char> {
    let t = trim_ws(body);
    if t.len() > 400 {
        t.take(400) + "..."@
    } else {
        t
    }
}

/// The error recorded for a failed HTTP status: the provider's structured
/// message when the body carries one, else the truncated raw body, behind
/// the status code.
pub open spec fn err_msg_spec(status: u16, body: Seq<char>) -> Seq<char> {
    "HTTP "@ + dec_of(status as nat) + ": "@ + (match err_field_of(body) {
        Some(m) => m,
        None => truncated_body(body),
    })
}

/// Builds the error message for a failed HTTP response.
pub fn extract_error_message(status: u16, body: &str) -> (r: String)
    ensures
        r@ == err_msg_spec(status, body@),
{
    let mut s = String::new();
    s.append("HTTP ");
    let d = u64_to_dec(status as u64);
    s.append(d.as_str());
    s.append(": ");
    match parse_error_field(body) {
        Some(m) => {
            s.append(m.as_str());
        },
        None => {
            let t = trim_str(body);
            let tl = t.unicode_len();
            if tl > 400 {
                let cut = t.substring_char(0, 400);
                s.append(cut);
                s.append("...");
                proof {
                    assert(cut@ =~= trim_ws(body@).take(400));
                }
            } else {
                s.append(t);
            }
        },
    }
    proof {
        assert(s@ =~= err_msg_spec(status, body@));
    }
    s
}

/// What one provider exchange for one attempt came back with: either the
/// transport itself failed (or the body could not be read), or a response
/// arrived with a status and a body.
pub enum AttemptOutcome {
    TransportError(String),
    Response(u16, String),
}

/// What the state machine decides after one attempt: the unit is translated
/// with the given text; or the caller should sleep for the given delay and
/// send the same request again; or the unit has failed with the given error.
pub enum StepAction {
    Done(String),
    Retry(u64),
    GiveUp(Option<String>),
}

/// The retry state of one unit: how many attempts have been made, and the
/// last error observed.
pub struct UnitAttempt {
    pub attempt: usize,
    pub last_err: Option<String>,
}

/// The message recorded when a success response carries no usable
/// translation: the body is not JSON, or the content field is missing.
pub open spec fn bad_body_msg(body: Seq<char>) -> Seq<char> {
    if !body_is_json(body) {
        "Invalid JSON from AI"@
    } else {
        "Invalid AI response: missing choices[0].message.content"@
    }
}

impl UnitAttempt {
    /// The state before the first attempt of a unit.
    pub fn new() -> (r: Self)
        ensures
            r.attempt == 0,
            r.last_err is None,
    {
        UnitAttempt { attempt: 0, last_err: None }
    }

    /// Feeds the outcome of one exchange into the machine and decides the
    /// next step. A transport failure, a retryable HTTP status and an
    /// unusable success body are retried while attempts remain, with
    /// exponential backoff; a non-retryable status fails at once with its
    /// extracted message; a usable success body ends the unit with the
    /// trimmed translated text.
    pub fn step(&mut self, outcome: AttemptOutcome) -> (r: StepAction)
        requires
            old(self).attempt < 3,
        ensures
            match outcome {
                AttemptOutcome::TransportError(e) => {
                    &&& opt_view(final(self).last_err) == Some(e@)
                    &&& if old(self).attempt + 1 < 3 {
                        &&& final(self).attempt == old(self).attempt + 1
                        &&& (r matches StepAction::Retry(d) && backoff_base(
                            old(self).attempt as nat,
                        ) <= d < backoff_base(old(self).attempt as nat) + 200)
                    } else {
                        &&& final(self).attempt == old(self).attempt
                        &&& (r matches StepAction::GiveUp(m) && opt_view(m) == Some(e@))
                    }
                },
                AttemptOutcome::Response(status, body) => {
                    if !success_status(status) {
                        let msg = err_msg_spec(status, body@);
                        &&& opt_view(final(self).last_err) == Some(msg)
                        &&& if retryable_status(status) && old(self).attempt + 1 < 3 {
                            &&& final(self).attempt == old(self).attempt + 1
                            &&& (r matches StepAction::Retry(d) && backoff_base(
                                old(self).attempt as nat,
                            ) <= d < backoff_base(old(self).attempt as nat) + 200)
                        } else {
                            &&& final(self).attempt == old(self).attempt
                            &&& (r matches StepAction::GiveUp(m) && opt_view(m) == Some(msg))
                        }
                    } else {
                        match chat_content_of(body@) {
                            Some(t) => if body_is_json(body@) {
                                &&& *final(self) == *old(self)
                                &&& (r matches StepAction::Done(text) && text@ == trim_ws(t))
                            } else {
                                let msg = bad_body_msg(body@);
                                &&& opt_view(final(self).last_err) == Some(msg)
                                &&& if old(self).attempt + 1 < 3 {
                                    &&& final(self).attempt == old(self).attempt + 1
                                    &&& (r matches StepAction::Retry(d) && backoff_base(
                                        old(self).attempt as nat,
                                    ) <= d < backoff_base(old(self).attempt as nat) + 200)
                                } else {
                                    &&& final(self).attempt == old(self).attempt
                                    &&& (r matches StepAction::GiveUp(m) && opt_view(m) == Some(
                                        msg,
                                    ))
                                }
                            },
                            None => {
                                let msg = bad_body_msg(body@);
                                &&& opt_view(final(self).last_err) == Some(msg)
                                &&& if old(self).attempt + 1 < 3 {
                                    &&& final(self).attempt == old(self).attempt + 1
                                    &&& (r matches StepAction::Retry(d) && backoff_base(
                                        old(self).attempt as nat,
                                    ) <= d < backoff_base(old(self).attempt as nat) + 200)
                                } else {
                                    &&& final(self).attempt == old(self).attempt
                                    &&& (r matches StepAction::GiveUp(m) && opt_view(m) == Some(
                                        msg,
                                    ))
                                }
                            },
                        }
                    }
                },
            },
    {
        match outcome {
            AttemptOutcome::TransportError(e) => {
                let again = self.attempt + 1 < MAX_RETRIES;
                let at = self.attempt;
                self.last_err = Some(e);
                if again {
                    self.attempt = at + 1;
                    StepAction::Retry(backoff_ms(at))
                } else {
                    StepAction::GiveUp(clone_opt_string(&self.last_err))
                }
            },
            AttemptOutcome::Response(status, body) => {
                if !(200 <= status && status < 300) {
                    let msg = extract_error_message(status, body.as_str());
                    let at = self.attempt;
                    self.last_err = Some(msg);
                    if should_retry_http(status) && at + 1 < MAX_RETRIES {
                        self.attempt = at + 1;
                        StepAction::Retry(backoff_ms(at))
                    } else {
                        StepAction::GiveUp(clone_opt_string(&self.last_err))
                    }
                } else {
                    match parse_chat_body(body.as_str()) {
                        BodyContent::Content(t) => {
                            let trimmed = trim_str(t.as_str()).to_owned();
                            StepAction::Done(trimmed)
                        },
                        BodyContent::NoContent => {
                            let at = self.attempt;
                            self.last_err = Some(
                                "Invalid AI response: missing choices[0].message.content".to_owned(),
                            );
                            if at + 1 < MAX_RETRIES {
                                self.attempt = at + 1;
                                StepAction::Retry(backoff_ms(at))
                            } else {
                                StepAction::GiveUp(clone_opt_string(&self.last_err))
                            }
                        },
                        BodyContent::NotJson => {
                            let at = self.attempt;
                            self.last_err = Some("Invalid JSON from AI".to_owned());
                            if at + 1 < MAX_RETRIES {
                                self.attempt = at + 1;
                                StepAction::Retry(backoff_ms(at))
                            } else {
                                StepAction::GiveUp(clone_opt_string(&self.last_err))
                            }
                        },
                    }
                }
            },
        }
    }
}

/// The indices of the translatable units, in order.
pub open spec fn translatable_ints(s: Seq<EntryV>) -> Seq<int>
    decreases s.len(),
{
    if s.len() == 0 {
        Seq::empty()
    } else {
        translatable_ints(s.drop_last()) + (if s.last().is_translatable {
            seq![s.len() - 1]
        } else {
            Seq::empty()
        })
    }
}

/// The indices a batch plan covers, in order.
pub open spec fn concat_batches(bs: Seq<Vec<usize>>) -> Seq<int>
    decreases bs.len(),
{
    if bs.len() == 0 {
        Seq::empty()
    } else {
        concat_batches(bs.drop_last()) + bs.last()@.map_values(|u: usize| u as int)
    }
}

/// Splits the translatable units into batches of at most `BATCH_SIZE`
/// indices, in order: every batch but the last is full, none is empty, and
/// together they cover exactly the translatable units. Batch boundaries
/// carry no meaning beyond bounding how much work stands between two
/// opportunities for partial progress.
pub fn plan_batches(entries: &Vec<CoreEntry>) -> (r: Vec<Vec<usize>>)
    ensures
        concat_batches(r@) == translatable_ints(crate::entry::entry_views(entries@)),
        forall|b: int| 0 <= b < r@.len() ==> 0 < (#[trigger] r@[b])@.len() <= 5,
        forall|b: int| 0 <= b < r@.len() - 1 ==> (#[trigger] r@[b])@.len() == 5,
{
    let ghost ev = crate::entry::entry_views(entries@);
    let n = entries.len();
    let mut out: Vec<Vec<usize>> = Vec::new();
    let mut cur: Vec<usize> = Vec::new();
    proof {
        assert(concat_batches(out@) + cur@.map_values(|u: usize| u as int) =~= translatable_ints(
            ev.take(0),
        ));
    }
    let mut i: usize = 0;
    while i < n
        invariant
            i <= n,
            n == entries@.len(),
            ev == crate::entry::entry_views(entries@),
            concat_batches(out@) + cur@.map_values(|u: usize| u as int) == translatable_ints(
                ev.take(i as int),
            ),
            cur@.len() < 5,
            forall|b: int| 0 <= b < out@.len() ==> (#[trigger] out@[b])@.len() == 5,
        decreases n - i,
    {
        proof {
            assert(ev.take(i + 1).drop_last() =~= ev.take(i as int));
            assert(ev.take(i + 1).last() == ev[i as int]);
            assert(ev[i as int] == entries@[i as int]@);
        }
        if entries[i].is_translatable {
            let ghost cb = cur@;
            cur.push(i);
            proof {
                assert(cur@.map_values(|u: usize| u as int) =~= cb.map_values(
                    |u: usize| u as int,
                ).push(i as int));
            }
            if cur.len() == BATCH_SIZE {
                let ghost ob = out@;
                let full = cur;
                out.push(full);
                cur = Vec::new();
                proof {
                    assert(out@.drop_last() =~= ob);
                    assert(cur@.map_values(|u: usize| u as int) =~= Seq::<int>::empty());
                    assert(concat_batches(out@) + cur@.map_values(|u: usize| u as int)
                        =~= translatable_ints(ev.take(i + 1)));
                }
            }
        }
        i += 1;
    }
    proof {
        assert(ev.take(n as int) =~= ev);
    }
    if cur.len() > 0 {
        let ghost ob = out@;
        out.push(cur);
        proof {
            assert(out@.drop_last() =~= ob);
            assert(concat_batches(out@) =~= translatable_ints(ev));
        }
    } else {
        proof {
            assert(cur@.map_values(|u: usize| u as int) =~= Seq::<int>::empty());
            assert(concat_batches(out@) =~= translatable_ints(ev));
        }
    }
    out
}

/// Copies an optional string.
fn clone_opt_string(o: &Option<String>) -> (r: Option<String>)
    ensures
        opt_view(r) == opt_view(*o),
{
    match o {
        Some(s) => Some(s.clone()),
        None => None,
    }
}

/// Records a successful live translation on the unit and in the report, as
/// one step: the unit gets the translated text and the `Translated` status,
/// and the report gains a success item for it.
pub fn commit_success(e: &mut CoreEntry, report: &mut AiRunReport, text: String)
    requires
        old(report).succeeded < usize::MAX,
    ensures
        final(e)@ == (EntryV { translation: text@, status: EntryStatus::Translated, ..old(e)@ }),
        final(report).succeeded == old(report).succeeded + 1,
        final(report).failed == old(report).failed,
        item_views(final(report).items@) == item_views(old(report).items@).push(
            ItemV { entry_id: old(e)@.entry_id, ok: true, error: None },
        ),
{
    e.translation = text;
    e.status = EntryStatus::Translated;
    report.succeeded = report.succeeded + 1;
    let item = AiItemResult { entry_id: e.entry_id.clone(), ok: true, error: None };
    report.items.push(item);
    proof {
        assert(item_views(report.items@) =~= item_views(old(report).items@).push(
            ItemV { entry_id: old(e)@.entry_id, ok: true, error: None },
        ));
    }
}

/// Records an exhausted unit in the report: the unit itself is not touched,
/// and the report gains a failure item carrying the last observed error.
pub fn record_failure(e: &CoreEntry, report: &mut AiRunReport, error: Option<String>)
    requires
        old(report).failed < usize::MAX,
    ensures
        final(report).failed == old(report).failed + 1,
        final(report).succeeded == old(report).succeeded,
        item_views(final(report).items@) == item_views(old(report).items@).push(
            ItemV { entry_id: e@.entry_id, ok: false, error: opt_view(error) },
        ),
{
    report.failed = report.failed + 1;
    let item = AiItemResult { entry_id: e.entry_id.clone(), ok: false, error };
    report.items.push(item);
    proof {
        assert(item_views(report.items@) =~= item_views(old(report).items@).push(
            ItemV { entry_id: e@.entry_id, ok: false, error: opt_view(error) },
        ));
    }
}

} // verus!
