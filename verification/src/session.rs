//! A run of the voice changer: from the choice of a voice model over its conversion to the stream, and
//! what is kept of how it ended.
use crate::model;
use crate::realtime::Status;
use crate::text::{hex, join, join3};
use crate::voice_model::digest;
use crate::{text, voice_model};
use vstd::prelude::*;
use vstd::string::*;

verus! {

broadcast use vstd::string::group_string_axioms;

/// How far a run is.
#[derive(Clone, Copy, PartialEq, Eq, Structural, Debug)]
pub enum Stage {
    Idle,
    Converting,
    Loading,
    Running,
}

/// The run, if any.
pub struct Session {
    stage: Stage,
    live: bool,
    error: Option<String>,
}

/// What a [`Session`] holds.
pub struct SessionValue {
    pub stage: Stage,
    /// Whether a stream was started and not dropped yet.
    pub live: bool,
    /// Why the last run ended.
    pub error: Option<Seq<char>>,
}

impl View for Session {
    type V = SessionValue;

    closed spec fn view(&self) -> SessionValue {
        SessionValue {
            stage: self.stage,
            live: self.live,
            error: model::seen_text(self.error),
        }
    }
}

/// What is said of a stream that failed.
pub open spec fn end_message(stage: Stage, reason: Seq<char>) -> Seq<char> {
    (if stage == Stage::Loading {
        "開始できませんでした"@
    } else {
        "変換が止まりました"@
    }) + ": "@ + reason
}

/// The session after the stream was looked at.
pub open spec fn polled(s: SessionValue, status: Status, reason: Seq<char>) -> SessionValue {
    if !s.live {
        s
    } else {
        match status {
            Status::Running => if s.stage == Stage::Loading {
                SessionValue { stage: Stage::Running, ..s }
            } else {
                s
            },
            Status::Error => SessionValue {
                stage: Stage::Idle,
                live: false,
                error: Some(end_message(s.stage, reason)),
            },
            Status::Loading => s,
        }
    }
}

/// The name under which the conversion of a checkpoint is kept: the first eight bytes of its digest.
pub open spec fn model_dir_name(checkpoint: Seq<u8>) -> Seq<char> {
    text::hex_of(voice_model::sha256(checkpoint).take(8))
}

/// The name under which the conversion of a checkpoint is kept.
pub fn model_name(checkpoint: &[u8]) -> (r: String)
    ensures
        r@ == model_dir_name(checkpoint@),
{
    let empty: Vec<u8> = Vec::new();
    let nothing: &[u8] = empty.as_slice();
    assert(nothing@ + checkpoint@ + nothing@ + nothing@ =~= checkpoint@);
    let sum = digest(nothing, checkpoint, nothing, nothing);
    let mut first: Vec<u8> = Vec::new();
    let mut i: usize = 0;
    while i < 8
        invariant
            i <= 8,
            sum@.len() == 32,
            first@ == sum@.take(i as int),
        decreases 8 - i,
    {
        first.push(sum[i]);
        i += 1;
        assert(first@ =~= sum@.take(i as int));
    }
    hex(&first)
}

impl Session {
    /// Nothing runs.
    pub fn new() -> (r: Session)
        ensures
            r@ == (SessionValue { stage: Stage::Idle, live: false, error: None }),
    {
        Session { stage: Stage::Idle, live: false, error: None }
    }

    pub fn stage(&self) -> (r: Stage)
        ensures
            r == self@.stage,
    {
        self.stage
    }

    pub fn error(&self) -> (r: Option<String>)
        ensures
            model::seen_text(r) == self@.error,
    {
        match &self.error {
            Some(e) => Some(e.clone()),
            None => None,
        }
    }

    /// A run is started: what ran before is dropped, and its error forgotten. Tells whether there is a
    /// stream to drop.
    pub fn start(&mut self) -> (r: bool)
        ensures
            r == old(self)@.live,
            final(self)@ == (SessionValue { stage: Stage::Loading, live: false, error: None }),
    {
        let old = self.live;
        self.error = None;
        self.stage = Stage::Loading;
        self.live = false;
        old
    }

    /// The voice model was read. Tells whether it has to be converted first: where no converted one
    /// opens, or its weights are missing.
    pub fn prepare(&mut self, opens: bool, has_weights: bool) -> (r: bool)
        ensures
            (final(self)@, r) == prepared(old(self)@, opens, has_weights),
    {
        if !opens || !has_weights {
            self.stage = Stage::Converting;
            return true;
        }
        false
    }

    /// The voice model was converted.
    pub fn converted(&mut self)
        ensures
            final(self)@ == (SessionValue { stage: Stage::Loading, ..old(self)@ }),
    {
        self.stage = Stage::Loading;
    }

    /// The stream was started.
    pub fn started(&mut self)
        ensures
            final(self)@ == (SessionValue { stage: Stage::Loading, live: true, ..old(self)@ }),
    {
        self.stage = Stage::Loading;
        self.live = true;
    }

    /// The run ended before there was a stream.
    pub fn fail(&mut self, reason: String)
        ensures
            final(self)@ == (SessionValue {
                stage: Stage::Idle,
                error: Some(reason@),
                ..old(self)@
            }),
    {
        self.stage = Stage::Idle;
        self.error = Some(reason);
    }

    /// The run is stopped. Tells whether there is a stream to drop.
    pub fn stop(&mut self) -> (r: bool)
        ensures
            r == old(self)@.live,
            final(self)@ == (SessionValue { stage: Stage::Idle, live: false, ..old(self)@ }),
    {
        let old = self.live;
        self.stage = Stage::Idle;
        self.live = false;
        old
    }

    /// The stream was looked at. Tells whether it is to be dropped: an error ends the run and is kept.
    pub fn poll(&mut self, status: Status, reason: &str) -> (r: bool)
        ensures
            final(self)@ == polled(old(self)@, status, reason@),
            r == (old(self)@.live && status is Error),
    {
        if !self.live {
            return false;
        }
        match status {
            Status::Running => {
                if self.stage == Stage::Loading {
                    self.stage = Stage::Running;
                }
                false
            },
            Status::Error => {
                let what: &str = if self.stage == Stage::Loading {
                    "開始できませんでした"
                } else {
                    "変換が止まりました"
                };
                self.error = Some(join3(what, ": ", reason));
                self.stage = Stage::Idle;
                self.live = false;
                true
            },
            Status::Loading => false,
        }
    }
}

/// What is said of a voice model that cannot be read.
pub fn unreadable(reason: &str) -> (r: String)
    ensures
        r@ == "声モデルを読めません: "@ + reason@,
{
    join("声モデルを読めません: ", reason)
}

/// What is said of a voice model that cannot be converted.
pub fn unconvertible(reason: &str) -> (r: String)
    ensures
        r@ == "声モデルを変換できませんでした: "@ + reason@,
{
    join("声モデルを変換できませんでした: ", reason)
}

/// A run that is shown as running has a stream, however often it is looked at; and an error that ended a
/// run stays until the next one is started.
pub proof fn law_running_has_a_stream(s: SessionValue, status: Status, reason: Seq<char>)
    requires
        s.stage == Stage::Running ==> s.live,
    ensures
        polled(s, status, reason).stage == Stage::Running ==> polled(s, status, reason).live,
        !polled(s, status, reason).live ==> polled(polled(s, status, reason), status, reason)
            == polled(s, status, reason),
{
}

/// A stream that was started is followed: it runs once it says so, an error ends the run and is kept with its
/// reason, told apart by whether it had begun, and nothing else changes anything. Without a stream there is
/// nothing to follow.
pub proof fn law_streams_are_followed(s: SessionValue, status: Status, reason: Seq<char>)
    ensures
        !s.live || status == Status::Loading ==> polled(s, status, reason) == s,
        s.live && status == Status::Running ==> {
            let t = polled(s, status, reason);
            &&& t.live && t.error == s.error
            &&& s.stage == Stage::Loading ==> t.stage == Stage::Running
            &&& s.stage != Stage::Loading ==> t.stage == s.stage
        },
        s.live && status == Status::Error ==> {
            let t = polled(s, status, reason);
            &&& t.stage == Stage::Idle && !t.live
            &&& s.stage == Stage::Loading ==> t.error == Some("開始できませんでした"@ + ": "@ + reason)
            &&& s.stage != Stage::Loading ==> t.error == Some("変換が止まりました"@ + ": "@ + reason)
        },
{
}

/// Conversions are kept by the first eight bytes of the digest, in sixteen digits: another name is another
/// digest.
pub proof fn law_conversions_are_kept_by_contents(a: Seq<u8>, b: Seq<u8>)
    requires
        voice_model::sha256(a).len() == 32,
        voice_model::sha256(b).len() == 32,
    ensures
        (model_dir_name(a) == model_dir_name(b)) == (forall|i: int|
            0 <= i < 8 ==> #[trigger] voice_model::sha256(a)[i] == voice_model::sha256(b)[i]),
        model_dir_name(a).len() == 16,
{
    let x = voice_model::sha256(a).take(8);
    let y = voice_model::sha256(b).take(8);
    text::lemma_hex_len(x);
    if model_dir_name(a) == model_dir_name(b) {
        text::law_hex_is_injective(x, y);
        assert forall|i: int| 0 <= i < 8 implies #[trigger] voice_model::sha256(a)[i]
            == voice_model::sha256(b)[i] by {
            assert(x[i] == y[i]);
        }
    }
    if forall|i: int| 0 <= i < 8 ==> #[trigger] voice_model::sha256(a)[i] == voice_model::sha256(b)[i] {
        assert(x =~= y);
    }
}

/// The session after its voice model was read, and whether the model has to be converted first.
pub open spec fn prepared(s: SessionValue, opens: bool, has_weights: bool) -> (SessionValue, bool) {
    if opens && has_weights {
        (s, false)
    } else {
        (SessionValue { stage: Stage::Converting, ..s }, true)
    }
}

/// A model is converted exactly where no converted one opens with its weights, and the session shows that it is; else
/// nothing changes.
pub proof fn law_only_missing_models_are_converted(s: SessionValue, opens: bool, has_weights: bool)
    ensures
        ({
            let (t, convert) = prepared(s, opens, has_weights);
            &&& convert <==> !opens || !has_weights
            &&& convert ==> t.stage == Stage::Converting
            &&& !convert ==> t == s
            &&& t == (SessionValue { stage: t.stage, ..s })
        }),
{
}

/// The reason of an end comes last, whatever ended.
pub proof fn law_end_names_its_reason(stage: Stage, reason: Seq<char>)
    ensures
        reason.is_suffix_of(end_message(stage, reason)),
        stage == Stage::Loading ==> end_message(stage, reason) == "開始できませんでした"@ + ": "@ + reason,
        stage == Stage::Running ==> end_message(stage, reason) == "変換が止まりました"@ + ": "@ + reason,
{
    let m = end_message(stage, reason);
    assert(m.skip(m.len() - reason.len()) =~= reason);
}

} // verus!
