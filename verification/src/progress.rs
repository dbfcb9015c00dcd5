use vstd::prelude::*;
use vstd::string::StringExecFns;

use crate::text::{
    digits_of, digits_val, find_pipe, is_digit_seq, lemma_digits_of_val, lemma_split_pipe_concat,
    parse_u32, pipe_free, split_once_pipe, split_pipe, u32_to_string,
};
use crate::text::char_seq_eq;

verus! {

pub type ProgressValue = u32;

/// Kind of progress bar.
#[derive(Clone, Copy, PartialEq, Eq, Structural, Debug)]
pub enum ProgressType {
    /// We know an amount that's incrementing (ex: 10/90, 11/90, etc).
    Definite,
    /// We don't know an amount and are just waiting.
    Indefinite,
}

/// The action a progress bar is reporting.
#[derive(Clone, Copy, PartialEq, Eq, Structural, Debug)]
pub enum ProgressAction {
    /// We're downloading a file.
    Download,
    /// We're extracting an archive.
    Extract,
}

/// The progress kind a label decodes to; anything but "Definite" reads as
/// indefinite, so observers tolerate unknown labels.
pub open spec fn type_of_label(s: Seq<char>) -> ProgressType {
    if s == "Definite"@ {
        ProgressType::Definite
    } else {
        ProgressType::Indefinite
    }
}

/// The action a label decodes to; anything but "Extract" reads as a download.
pub open spec fn action_of_label(s: Seq<char>) -> ProgressAction {
    if s == "Extract"@ {
        ProgressAction::Extract
    } else {
        ProgressAction::Download
    }
}

/// The wire label of a progress kind.
pub open spec fn type_label(t: ProgressType) -> Seq<char> {
    match t {
        ProgressType::Definite => "Definite"@,
        ProgressType::Indefinite => "Indefinite"@,
    }
}

/// The wire label of an action.
pub open spec fn action_label(a: ProgressAction) -> Seq<char> {
    match a {
        ProgressAction::Download => "Download"@,
        ProgressAction::Extract => "Extract"@,
    }
}

impl ProgressType {
    fn parse(input: &str) -> (r: Self)
        ensures
            r == type_of_label(input@),
    {
        if char_seq_eq(input, "Definite") {
            ProgressType::Definite
        } else {
            ProgressType::Indefinite
        }
    }
}

impl ProgressAction {
    pub fn parse(input: &str) -> (r: Self)
        ensures
            r == action_of_label(input@),
    {
        proof {
            lemma_labels_distinct();
        }
        if char_seq_eq(input, "Download") {
            ProgressAction::Download
        } else if char_seq_eq(input, "Extract") {
            ProgressAction::Extract
        } else {
            ProgressAction::Download
        }
    }
}

#[derive(Clone)]
pub struct ProgressStartPayload {
    pub id: String,
    pub len: ProgressValue,
    pub msg: String,
    pub progress_type: ProgressType,
    pub progress_action: ProgressAction,
}

#[derive(Clone)]
pub struct ProgressIncrementPayload {
    pub id: String,
    pub progress: ProgressValue,
}

#[derive(Clone)]
pub struct ProgressMessagePayload {
    pub id: String,
    pub msg: String,
}

#[derive(Clone)]
pub struct ProgressFinishPayload {
    pub id: String,
    pub success: bool,
    pub msg: String,
}

/// Payload sent when a progress bar is updated.
#[derive(Clone)]
pub enum ProgressPayload {
    /// Payload sent when a progress bar is started.
    Start(ProgressStartPayload),
    /// Payload sent when a progress bar is incremented.
    Increment(ProgressIncrementPayload),
    /// Payload sent when a progress bar's message is updated.
    Msg(ProgressMessagePayload),
    /// Payload sent when a progress bar has finished its task.
    Finish(ProgressFinishPayload),
    /// Any unrecognized or malformed line on the channel.
    Unknown,
}

/// Mathematical model of one progress event.
pub enum ProgressEvent {
    Start {
        id: Seq<char>,
        len: ProgressValue,
        progress_type: ProgressType,
        progress_action: ProgressAction,
        msg: Seq<char>,
    },
    Increment { id: Seq<char>, progress: ProgressValue },
    Msg { id: Seq<char>, msg: Seq<char> },
    Finish { id: Seq<char>, success: bool, msg: Seq<char> },
    Unknown,
}

impl View for ProgressPayload {
    type V = ProgressEvent;

    open spec fn view(&self) -> ProgressEvent {
        match self {
            ProgressPayload::Start(p) => ProgressEvent::Start {
                id: p.id@,
                len: p.len,
                progress_type: p.progress_type,
                progress_action: p.progress_action,
                msg: p.msg@,
            },
            ProgressPayload::Increment(p) => ProgressEvent::Increment {
                id: p.id@,
                progress: p.progress,
            },
            ProgressPayload::Msg(p) => ProgressEvent::Msg { id: p.id@, msg: p.msg@ },
            ProgressPayload::Finish(p) => ProgressEvent::Finish {
                id: p.id@,
                success: p.success,
                msg: p.msg@,
            },
            ProgressPayload::Unknown => ProgressEvent::Unknown,
        }
    }
}

/// A digit string that fits a `u32`.
pub open spec fn valid_u32_digits(s: Seq<char>) -> bool {
    s.len() > 0 && is_digit_seq(s) && digits_val(s) <= u32::MAX
}

/// What the tail of a Start line decodes to, after the kind and id fields.
pub open spec fn decode_start(id: Seq<char>, args: Seq<char>) -> ProgressEvent {
    match split_pipe(args) {
        None => ProgressEvent::Unknown,
        Some((len_s, r1)) => match split_pipe(r1) {
            None => ProgressEvent::Unknown,
            Some((pt, r2)) => match split_pipe(r2) {
                None => ProgressEvent::Unknown,
                Some((pa, msg)) => if valid_u32_digits(len_s) {
                    ProgressEvent::Start {
                        id,
                        len: digits_val(len_s) as u32,
                        progress_type: type_of_label(pt),
                        progress_action: action_of_label(pa),
                        msg,
                    }
                } else {
                    ProgressEvent::Unknown
                },
            },
        },
    }
}

/// What the tail of a Finish line decodes to.
pub open spec fn decode_finish(id: Seq<char>, args: Seq<char>) -> ProgressEvent {
    match split_pipe(args) {
        None => ProgressEvent::Unknown,
        Some((succ, msg)) => ProgressEvent::Finish { id, success: succ == "true"@, msg },
    }
}

/// The event one line of the wire protocol carries. Anything malformed is an
/// Unknown event, never an error: observers share the channel with ordinary
/// log lines and must tolerate them.
pub open spec fn decode(s: Seq<char>) -> ProgressEvent {
    match split_pipe(s) {
        None => ProgressEvent::Unknown,
        Some((action, rest)) => match split_pipe(rest) {
            None => ProgressEvent::Unknown,
            Some((id, args)) => if action == "Start"@ {
                decode_start(id, args)
            } else if action == "Increment"@ {
                if valid_u32_digits(args) {
                    ProgressEvent::Increment { id, progress: digits_val(args) as u32 }
                } else {
                    ProgressEvent::Unknown
                }
            } else if action == "Msg"@ {
                ProgressEvent::Msg { id, msg: args }
            } else if action == "Finish"@ {
                decode_finish(id, args)
            } else {
                ProgressEvent::Unknown
            },
        },
    }
}

impl ProgressPayload {
    /// Parse a progress bar payload from a log line.
    ///
    /// ## Returns
    ///
    /// The payload the log line contains; `Unknown` when the line is not a
    /// well-formed progress event.
    pub fn parse(input: &str) -> (r: Self)
        ensures
            r@ == decode(input@),
    {
        let (action, rest) = match split_once_pipe(input) {
            None => {
                return ProgressPayload::Unknown;
            },
            Some(p) => p,
        };
        let (id, args) = match split_once_pipe(rest) {
            None => {
                return ProgressPayload::Unknown;
            },
            Some(p) => p,
        };
        if char_seq_eq(action, "Start") {
            let (len_s, r1) = match split_once_pipe(args) {
                None => {
                    return ProgressPayload::Unknown;
                },
                Some(p) => p,
            };
            let (pt, r2) = match split_once_pipe(r1) {
                None => {
                    return ProgressPayload::Unknown;
                },
                Some(p) => p,
            };
            let (pa, msg) = match split_once_pipe(r2) {
                None => {
                    return ProgressPayload::Unknown;
                },
                Some(p) => p,
            };
            match parse_u32(len_s) {
                None => ProgressPayload::Unknown,
                Some(len) => ProgressPayload::Start(ProgressStartPayload {
                    id: id.to_owned(),
                    msg: msg.to_owned(),
                    progress_action: ProgressAction::parse(pa),
                    progress_type: ProgressType::parse(pt),
                    len,
                }),
            }
        } else if char_seq_eq(action, "Increment") {
            match parse_u32(args) {
                None => ProgressPayload::Unknown,
                Some(progress) => ProgressPayload::Increment(ProgressIncrementPayload {
                    id: id.to_owned(),
                    progress,
                }),
            }
        } else if char_seq_eq(action, "Msg") {
            ProgressPayload::Msg(ProgressMessagePayload {
                id: id.to_owned(),
                msg: args.to_owned(),
            })
        } else if char_seq_eq(action, "Finish") {
            let (succ, msg) = match split_once_pipe(args) {
                None => {
                    return ProgressPayload::Unknown;
                },
                Some(p) => p,
            };
            ProgressPayload::Finish(ProgressFinishPayload {
                id: id.to_owned(),
                success: char_seq_eq(succ, "true"),
                msg: msg.to_owned(),
            })
        } else {
            ProgressPayload::Unknown
        }
    }
}

/// The wire line of a Start event.
pub open spec fn encode_start(
    id: Seq<char>,
    len: ProgressValue,
    t: ProgressType,
    a: ProgressAction,
    msg: Seq<char>,
) -> Seq<char> {
    "Start"@ + seq!['|'] + id + seq!['|'] + digits_of(len as nat) + seq!['|'] + type_label(t)
        + seq!['|'] + action_label(a) + seq!['|'] + msg
}

/// The wire line of an Increment event.
pub open spec fn encode_increment(id: Seq<char>, progress: ProgressValue) -> Seq<char> {
    "Increment"@ + seq!['|'] + id + seq!['|'] + digits_of(progress as nat)
}

/// The wire line of a Msg event.
pub open spec fn encode_msg(id: Seq<char>, msg: Seq<char>) -> Seq<char> {
    "Msg"@ + seq!['|'] + id + seq!['|'] + msg
}

/// The wire line of a Finish event.
pub open spec fn encode_finish(id: Seq<char>, success: bool, msg: Seq<char>) -> Seq<char> {
    "Finish"@ + seq!['|'] + id + seq!['|'] + (if success {
        "true"@
    } else {
        "false"@
    }) + seq!['|'] + msg
}

/// None of the protocol's fixed labels holds a pipe.
pub proof fn lemma_labels_pipe_free()
    ensures
        pipe_free("Start"@),
        pipe_free("Increment"@),
        pipe_free("Msg"@),
        pipe_free("Finish"@),
        pipe_free("Definite"@),
        pipe_free("Indefinite"@),
        pipe_free("Download"@),
        pipe_free("Extract"@),
        pipe_free("true"@),
        pipe_free("false"@),
{
    reveal_strlit("Start");
    reveal_strlit("Increment");
    reveal_strlit("Msg");
    reveal_strlit("Finish");
    reveal_strlit("Definite");
    reveal_strlit("Indefinite");
    reveal_strlit("Download");
    reveal_strlit("Extract");
    reveal_strlit("true");
    reveal_strlit("false");
}

/// The protocol's fixed labels are pairwise distinct where decoding compares
/// them.
pub proof fn lemma_labels_distinct()
    ensures
        "Increment"@ != "Start"@,
        "Msg"@ != "Start"@,
        "Msg"@ != "Increment"@,
        "Finish"@ != "Start"@,
        "Finish"@ != "Increment"@,
        "Finish"@ != "Msg"@,
        "Indefinite"@ != "Definite"@,
        "Extract"@ != "Download"@,
        "false"@ != "true"@,
{
    reveal_strlit("Start");
    reveal_strlit("Increment");
    reveal_strlit("Msg");
    reveal_strlit("Finish");
    reveal_strlit("Definite");
    reveal_strlit("Indefinite");
    reveal_strlit("Download");
    reveal_strlit("Extract");
    reveal_strlit("true");
    reveal_strlit("false");
    assert("Increment"@.len() == 9);
    assert("Start"@.len() == 5);
    assert("Msg"@.len() == 3);
    assert("Finish"@.len() == 6);
    assert("Indefinite"@.len() == 10);
    assert("Definite"@.len() == 8);
    assert("Extract"@.len() == 7);
    assert("Download"@.len() == 8);
    assert("true"@.len() == 4);
    assert("false"@.len() == 5);
}

/// Round trip: a Start line encodes and decodes to the same event, for any id
/// without a pipe; the message may itself contain pipes.
pub proof fn lemma_start_round_trip(
    id: Seq<char>,
    len: ProgressValue,
    t: ProgressType,
    a: ProgressAction,
    msg: Seq<char>,
)
    requires
        pipe_free(id),
    ensures
        decode(encode_start(id, len, t, a, msg)) == (ProgressEvent::Start {
            id,
            len,
            progress_type: t,
            progress_action: a,
            msg,
        }),
{
    lemma_labels_pipe_free();
    lemma_labels_distinct();
    lemma_digits_of_val(len as nat);
    let digits = digits_of(len as nat);
    let tl = type_label(t);
    let al = action_label(a);
    let tail3 = pa_tail(al, msg);
    let tail2 = tl + seq!['|'] + tail3;
    let tail1 = digits + seq!['|'] + tail2;
    let body = id + seq!['|'] + tail1;
    assert(encode_start(id, len, t, a, msg) =~= "Start"@ + seq!['|'] + body);
    lemma_split_pipe_concat("Start"@, body);
    lemma_split_pipe_concat(id, tail1);
    lemma_split_pipe_concat(digits, tail2);
    assert(pipe_free(tl));
    lemma_split_pipe_concat(tl, tail3);
    assert(pipe_free(al));
    lemma_split_pipe_concat(al, msg);
    assert(type_of_label(tl) == t);
    assert(action_of_label(al) == a);
    assert(valid_u32_digits(digits));
}

/// Helper: the last two fields of a Start line.
pub open spec fn pa_tail(al: Seq<char>, msg: Seq<char>) -> Seq<char> {
    al + seq!['|'] + msg
}

/// Round trip: an Increment line encodes and decodes to the same event.
pub proof fn lemma_increment_round_trip(id: Seq<char>, progress: ProgressValue)
    requires
        pipe_free(id),
    ensures
        decode(encode_increment(id, progress)) == (ProgressEvent::Increment { id, progress }),
{
    lemma_labels_pipe_free();
    lemma_labels_distinct();
    lemma_digits_of_val(progress as nat);
    let digits = digits_of(progress as nat);
    let body = id + seq!['|'] + digits;
    assert(encode_increment(id, progress) =~= "Increment"@ + seq!['|'] + body);
    lemma_split_pipe_concat("Increment"@, body);
    lemma_split_pipe_concat(id, digits);
    assert(valid_u32_digits(digits));
}

/// Round trip: a Msg line encodes and decodes to the same event; the message
/// may contain pipes.
pub proof fn lemma_msg_round_trip(id: Seq<char>, msg: Seq<char>)
    requires
        pipe_free(id),
    ensures
        decode(encode_msg(id, msg)) == (ProgressEvent::Msg { id, msg }),
{
    lemma_labels_pipe_free();
    lemma_labels_distinct();
    let body = id + seq!['|'] + msg;
    assert(encode_msg(id, msg) =~= "Msg"@ + seq!['|'] + body);
    lemma_split_pipe_concat("Msg"@, body);
    lemma_split_pipe_concat(id, msg);
}

/// Round trip: a Finish line encodes and decodes to the same event; the
/// message may contain pipes.
pub proof fn lemma_finish_round_trip(id: Seq<char>, success: bool, msg: Seq<char>)
    requires
        pipe_free(id),
    ensures
        decode(encode_finish(id, success, msg)) == (ProgressEvent::Finish { id, success, msg }),
{
    lemma_labels_pipe_free();
    lemma_labels_distinct();
    let succ = if success { "true"@ } else { "false"@ };
    let tail = succ + seq!['|'] + msg;
    let body = id + seq!['|'] + tail;
    assert(encode_finish(id, success, msg) =~= "Finish"@ + seq!['|'] + body);
    lemma_split_pipe_concat("Finish"@, body);
    lemma_split_pipe_concat(id, tail);
    assert(pipe_free(succ));
    lemma_split_pipe_concat(succ, msg);
}

/// Builds the String `prefix|id|tail` from the pieces of a wire line.
fn join_pipe3(prefix: &str, id: &str, tail: &str) -> (r: String)
    ensures
        r@ == prefix@ + seq!['|'] + id@ + seq!['|'] + tail@,
{
    proof {
        reveal_strlit("|");
        assert("|"@ =~= seq!['|']);
    }
    let mut out = prefix.to_owned();
    out.append("|");
    out.append(id);
    out.append("|");
    out.append(tail);
    proof {
        assert(out@ =~= prefix@ + seq!['|'] + id@ + seq!['|'] + tail@);
    }
    out
}

/// Represents a progress bar. Methods hand back the encoded wire line for the
/// event they represent; the caller broadcasts it on the log channel.
pub struct ProgressBar {
    pub id: String,
    pub len: ProgressValue,
    pub progress: ProgressValue,
    pub failure_message: String,
    pub complete: bool,
}

/// The message a Finish line carries: the bar's failure message stands in
/// when the operation failed and no message was supplied.
pub open spec fn finish_message(success: bool, msg: Seq<char>, failure: Seq<char>) -> Seq<char> {
    if !success && msg.len() == 0 {
        failure
    } else {
        msg
    }
}

impl ProgressBar {
    /// Starts a bar and hands back the Start line to broadcast.
    pub fn new(
        id: &str,
        len: ProgressValue,
        msg: &str,
        failure_message: &str,
        progress_type: ProgressType,
        progress_action: ProgressAction,
    ) -> (r: (Self, String))
        ensures
            r.0.id@ == id@,
            r.0.len == len,
            r.0.progress == 0,
            r.0.failure_message@ == failure_message@,
            !r.0.complete,
            r.1@ == encode_start(id@, len, progress_type, progress_action, msg@),
    {
        let bar = ProgressBar {
            id: id.to_owned(),
            len,
            progress: 0,
            failure_message: failure_message.to_owned(),
            complete: false,
        };
        let len_s = u32_to_string(len);
        let tlabel: &str = match progress_type {
            ProgressType::Definite => "Definite",
            ProgressType::Indefinite => "Indefinite",
        };
        let alabel: &str = match progress_action {
            ProgressAction::Download => "Download",
            ProgressAction::Extract => "Extract",
        };
        proof {
            reveal_strlit("|");
            assert("|"@ =~= seq!['|']);
        }
        let mut tail = len_s;
        tail.append("|");
        tail.append(tlabel);
        tail.append("|");
        tail.append(alabel);
        tail.append("|");
        tail.append(msg);
        let line = join_pipe3("Start", id, tail.as_str());
        proof {
            assert(line@ =~= encode_start(id@, len, progress_type, progress_action, msg@));
        }
        (bar, line)
    }

    /// Advances the bar, clamping at its declared length, and hands back the
    /// Increment line to broadcast.
    pub fn inc(&mut self, amount: ProgressValue) -> (line: String)
        ensures
            final(self).id == old(self).id,
            final(self).len == old(self).len,
            final(self).failure_message == old(self).failure_message,
            final(self).complete == old(self).complete,
            final(self).progress as int == if old(self).progress + amount >= old(self).len {
                old(self).len as int
            } else {
                old(self).progress + amount
            },
            line@ == encode_increment(old(self).id@, final(self).progress),
    {
        if amount >= self.len || self.progress >= self.len - amount {
            self.progress = self.len;
        } else {
            self.progress = self.progress + amount;
        }
        join_pipe3("Increment", self.id.as_str(), u32_to_string(self.progress).as_str())
    }

    /// Hands back the Msg line that updates the bar's status text.
    pub fn set_msg(&self, msg: &str) -> (line: String)
        ensures
            line@ == encode_msg(self.id@, msg@),
    {
        join_pipe3("Msg", self.id.as_str(), msg)
    }

    /// Marks the bar complete and hands back the Finish line. When the
    /// operation failed and no message is supplied, the bar's failure message
    /// stands in.
    pub fn finish(&mut self, success: bool, msg: &str) -> (line: String)
        ensures
            final(self).id == old(self).id,
            final(self).len == old(self).len,
            final(self).progress == old(self).progress,
            final(self).failure_message == old(self).failure_message,
            final(self).complete,
            line@ == encode_finish(
                old(self).id@,
                success,
                finish_message(success, msg@, old(self).failure_message@),
            ),
    {
        self.complete = true;
        let succ: &str = if success { "true" } else { "false" };
        let use_failure = !success && msg.unicode_len() == 0;
        let mut tail: String = succ.to_owned();
        proof {
            reveal_strlit("|");
            assert("|"@ =~= seq!['|']);
        }
        tail.append("|");
        if use_failure {
            tail.append(self.failure_message.as_str());
        } else {
            tail.append(msg);
        }
        let line = join_pipe3("Finish", self.id.as_str(), tail.as_str());
        proof {
            assert(line@ =~= encode_finish(
                old(self).id@,
                success,
                finish_message(success, msg@, old(self).failure_message@),
            ));
        }
        line
    }

    /// The scoped-resource guarantee: called when the bar's owner lets go of
    /// it. A bar never finished explicitly emits exactly one
    /// Finish(success=false) line carrying its failure message; a finished
    /// bar emits nothing, so no second Finish line ever appears.
    pub fn release(&mut self) -> (r: Option<String>)
        ensures
            release_rel(*old(self), *final(self), r),
    {
        if self.complete {
            None
        } else {
            let line = self.finish(false, "");
            proof {
                reveal_strlit("");
                assert(""@.len() == 0);
            }
            Some(line)
        }
    }
}

/// What releasing a bar does: the bar ends complete, everything else about
/// it is kept, and a Finish(success=false) line comes out exactly when the
/// bar had not finished yet.
pub open spec fn release_rel(pre: ProgressBar, post: ProgressBar, r: Option<String>) -> bool {
    &&& post.id == pre.id
    &&& post.len == pre.len
    &&& post.progress == pre.progress
    &&& post.failure_message == pre.failure_message
    &&& post.complete
    &&& (pre.complete ==> r is None && post == pre)
    &&& (!pre.complete ==> (r matches Some(line) && line@ == encode_finish(
        pre.id@,
        false,
        pre.failure_message@,
    )))
}

/// A bar released and then released again emits exactly one
/// Finish(success=false) line in total: the first release emits it, and
/// every later one emits nothing, so no observer sees a second Finish.
pub proof fn lemma_release_exactly_once(
    b0: ProgressBar,
    b1: ProgressBar,
    b2: ProgressBar,
    r1: Option<String>,
    r2: Option<String>,
)
    requires
        release_rel(b0, b1, r1),
        release_rel(b1, b2, r2),
    ensures
        !b0.complete ==> (r1 is Some && r2 is None),
        b0.complete ==> (r1 is None && r2 is None),
{
}

/// Observer-side state of one bar, rebuilt from the event stream alone.
pub struct TrackedBar {
    pub id: String,
    pub len: ProgressValue,
    pub progress: ProgressValue,
    pub message: String,
    pub progress_type: ProgressType,
    pub progress_action: ProgressAction,
    pub success: Option<bool>,
}

impl TrackedBar {
    /// The bar a Start event announces: empty progress, no outcome yet.
    pub fn from_start(p: &ProgressStartPayload) -> (r: Self)
        ensures
            r.id@ == p.id@,
            r.len == p.len,
            r.progress == 0,
            r.message@ == p.msg@,
            r.progress_type == p.progress_type,
            r.progress_action == p.progress_action,
            r.success is None,
    {
        TrackedBar {
            id: p.id.clone(),
            len: p.len,
            progress: 0,
            message: p.msg.clone(),
            progress_type: p.progress_type,
            progress_action: p.progress_action,
            success: None,
        }
    }

    /// Folds one decoded event into the bar. Events for other ids leave it
    /// untouched; an Increment is clamped so progress never exceeds the
    /// declared length; a Msg replaces the status text; a Finish records the
    /// outcome.
    pub fn apply(&mut self, payload: &ProgressPayload)
        ensures
            final(self).id == old(self).id,
            final(self).len == old(self).len,
            final(self).progress_type == old(self).progress_type,
            final(self).progress_action == old(self).progress_action,
            match payload {
                ProgressPayload::Increment(p) => if p.id@ == old(self).id@ {
                    final(self).progress == (if p.progress >= old(self).len {
                        old(self).len
                    } else {
                        p.progress
                    }) && final(self).message == old(self).message && final(self).success == old(
                        self,
                    ).success
                } else {
                    *final(self) == *old(self)
                },
                ProgressPayload::Msg(p) => if p.id@ == old(self).id@ {
                    final(self).message@ == p.msg@ && final(self).progress == old(self).progress
                        && final(self).success == old(self).success
                } else {
                    *final(self) == *old(self)
                },
                ProgressPayload::Finish(p) => if p.id@ == old(self).id@ {
                    final(self).success == Some(p.success) && final(self).message@ == p.msg@
                        && final(self).progress == old(self).progress
                } else {
                    *final(self) == *old(self)
                },
                _ => *final(self) == *old(self),
            },
    {
        match payload {
            ProgressPayload::Increment(p) => {
                if char_seq_eq(p.id.as_str(), self.id.as_str()) {
                    self.progress = if p.progress >= self.len {
                        self.len
                    } else {
                        p.progress
                    };
                }
            },
            ProgressPayload::Msg(p) => {
                if char_seq_eq(p.id.as_str(), self.id.as_str()) {
                    self.message = p.msg.clone();
                }
            },
            ProgressPayload::Finish(p) => {
                if char_seq_eq(p.id.as_str(), self.id.as_str()) {
                    self.success = Some(p.success);
                    self.message = p.msg.clone();
                }
            },
            _ => {},
        }
    }
}

} // verus!
