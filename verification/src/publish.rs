//! Publishing one payload, several times if asked.

use vstd::prelude::*;

use crate::payload::{
    bad_base64_text, decode_error, decode_fails, is_payload_of, one_payload, payload_choice_text,
    take_payload, Payload, PayloadError, ToolError,
};

verus! {

/// What a caller asks to be published.
#[derive(Debug)]
pub struct PublishArgs {
    pub topic_name: String,
    pub text: Option<String>,
    pub payload_base64: Option<String>,
    /// How long to wait for a subscriber, in milliseconds; 500 where left out.
    pub discovery_wait_ms: Option<u64>,
    /// How often to send; once where left out.
    pub repeat: Option<u32>,
    /// Pause between two sends, in milliseconds; 100 where left out.
    pub repeat_interval_ms: Option<u64>,
}

/// What is to be published, every default filled in.
#[derive(Debug)]
pub struct PublishPlan {
    pub topic_name: String,
    pub payload: Payload,
    pub bytes_sent: usize,
    pub discovery_wait_ms: u64,
    pub repeat: u32,
    pub repeat_interval_ms: u64,
}

/// What publishing came to.
#[derive(Debug)]
pub struct PublishResult {
    pub topic_name: String,
    /// Size of the payload; every send writes it once.
    pub bytes_sent: usize,
    pub sends_succeeded: u32,
    pub sends_attempted: u32,
}

/// The given value, or the default.
pub open spec fn value_or(given: Option<u64>, default: u64) -> u64 {
    match given {
        Some(v) => v,
        None => default,
    }
}

/// How often to send: as often as asked, once where left out.
pub open spec fn send_count(repeat: Option<u32>) -> u32 {
    match repeat {
        Some(n) => n,
        None => 1,
    }
}

fn byte_len(p: &Payload) -> (r: usize)
    ensures
        r == p.bytes().len(),
{
    match p {
        Payload::Text(s) => s.as_str().as_bytes().len(),
        Payload::Bytes(b) => b.len(),
    }
}

/// `plan` does what `args` ask.
pub open spec fn is_plan_of(plan: PublishPlan, args: PublishArgs) -> bool {
    &&& plan.topic_name == args.topic_name
    &&& is_payload_of(plan.payload, args.text, args.payload_base64)
    &&& plan.bytes_sent == plan.payload.bytes().len()
    &&& plan.discovery_wait_ms == value_or(args.discovery_wait_ms, 500)
    &&& plan.repeat == send_count(args.repeat)
    &&& plan.repeat_interval_ms == value_or(args.repeat_interval_ms, 100)
}

/// `r` is what comes of asking for `args`.
pub open spec fn is_publish_outcome(r: Result<PublishPlan, ToolError>, args: PublishArgs) -> bool {
    match r {
        Ok(plan) => is_plan_of(plan, args),
        Err(ToolError::InvalidParams(m)) => !one_payload(args.text, args.payload_base64) && m@
            == payload_choice_text(),
        Err(ToolError::Internal(m)) => decode_fails(args.text, args.payload_base64) && m@
            == bad_base64_text(decode_error(args.payload_base64)),
    }
}

/// Settles what to publish. A wrong choice of payload is the caller's fault; a payload that does
/// not decode is reported as a failure.
pub fn plan_publish(args: PublishArgs) -> (r: Result<PublishPlan, ToolError>)
    ensures
        is_publish_outcome(r, args),
{
    let discovery_wait_ms: u64 = match args.discovery_wait_ms {
        Some(v) => v,
        None => 500,
    };
    let repeat: u32 = match args.repeat {
        Some(n) => n,
        None => 1,
    };
    let repeat_interval_ms: u64 = match args.repeat_interval_ms {
        Some(v) => v,
        None => 100,
    };
    match take_payload(args.text, args.payload_base64) {
        Ok(payload) => {
            let bytes_sent: usize = byte_len(&payload);
            Ok(
                PublishPlan {
                    topic_name: args.topic_name,
                    payload,
                    bytes_sent,
                    discovery_wait_ms,
                    repeat,
                    repeat_interval_ms,
                },
            )
        },
        Err(PayloadError::Choice) => Err(
            ToolError::InvalidParams(
                "exactly one of `text` or `payload_base64` must be provided".to_owned(),
            ),
        ),
        Err(PayloadError::Base64(e)) => {
            let mut m = "invalid base64: ".to_owned();
            m.append(e.as_str());
            Err(ToolError::Internal(m))
        },
    }
}

/// What to do after a look for counterparts.
#[derive(Debug, Clone, Copy, PartialEq, Eq, Structural)]
pub enum WaitStep {
    /// Sleep this many milliseconds, then look again.
    Sleep(u64),
    /// Wait no longer.
    Proceed,
}

/// Pause between two looks for a subscriber, in milliseconds.
pub const SUBSCRIBER_POLL_MS: u64 = 20;

/// Pause between two looks for a service instance, in milliseconds.
pub const INSTANCE_POLL_MS: u64 = 50;

/// A wait for counterparts: until one is there, or until time is up.
#[derive(Debug, Clone, Copy)]
pub struct Discovery {
    /// When time is up, in nanoseconds on the clock of the observer.
    pub deadline_ns: u128,
    /// Pause between two looks, in milliseconds.
    pub poll_ms: u64,
}

impl Discovery {
    /// The wait lasts `wait_ms` milliseconds from `now_ns`, with looks `poll_ms` apart.
    pub open spec fn lasts(self, now_ns: u64, wait_ms: u64, poll_ms: u64) -> bool {
        &&& self.deadline_ns == now_ns + wait_ms * 1_000_000
        &&& self.poll_ms == poll_ms
    }

    /// What to do after a look at `now_ns` that found `found` counterparts.
    pub open spec fn next_step(self, found: usize, now_ns: u64) -> WaitStep {
        if found == 0 && now_ns < self.deadline_ns {
            WaitStep::Sleep(self.poll_ms)
        } else {
            WaitStep::Proceed
        }
    }

    /// A wait of `wait_ms` milliseconds that starts at `now_ns`.
    pub fn new(now_ns: u64, wait_ms: u64, poll_ms: u64) -> (r: Discovery)
        ensures
            r.lasts(now_ns, wait_ms, poll_ms),
    {
        Discovery { deadline_ns: now_ns as u128 + wait_ms as u128 * 1_000_000, poll_ms }
    }

    /// Sleeps while nothing is found and time is left.
    pub fn step(&self, found: usize, now_ns: u64) -> (r: WaitStep)
        ensures
            r == self.next_step(found, now_ns),
    {
        if found == 0 && (now_ns as u128) < self.deadline_ns {
            WaitStep::Sleep(self.poll_ms)
        } else {
            WaitStep::Proceed
        }
    }
}

/// What to do after a send.
#[derive(Debug, Clone, Copy, PartialEq, Eq, Structural)]
pub enum SendStep {
    /// Pause, then send again.
    Pause,
    /// No more sends.
    Finished,
}

/// A run of sends.
#[derive(Debug)]
pub struct SendRun {
    repeat: u32,
    attempted: u32,
    succeeded: u32,
}

/// How many of the outcomes are successes.
pub open spec fn successes(outcomes: Seq<bool>) -> int
    decreases outcomes.len(),
{
    if outcomes.len() == 0 {
        0
    } else {
        successes(outcomes.drop_last()) + if outcomes.last() {
            1int
        } else {
            0
        }
    }
}

impl SendRun {
    /// How often the run sends.
    pub closed spec fn wanted(self) -> int {
        self.repeat as int
    }

    /// How often it has sent.
    pub closed spec fn tried(self) -> int {
        self.attempted as int
    }

    /// How many sends went through.
    pub closed spec fn went_through(self) -> int {
        self.succeeded as int
    }

    /// The run has come to this after `outcomes`.
    pub open spec fn after(self, outcomes: Seq<bool>) -> bool {
        self.tried() == outcomes.len() && self.went_through() == successes(outcomes)
    }

    #[verifier::type_invariant]
    spec fn well_formed(self) -> bool {
        self.succeeded <= self.attempted <= self.repeat
    }

    /// Nothing sent yet.
    pub fn new(plan: &PublishPlan) -> (r: SendRun)
        ensures
            r.wanted() == plan.repeat,
            r.after(Seq::empty()),
    {
        SendRun { repeat: plan.repeat, attempted: 0, succeeded: 0 }
    }

    /// Whether a send is due: until there were as many as wanted.
    pub fn is_due(&self) -> (r: bool)
        ensures
            r <==> self.tried() < self.wanted(),
            !r ==> self.tried() == self.wanted(),
    {
        proof {
            use_type_invariant(self);
        }
        self.attempted < self.repeat
    }

    /// Takes in the outcome of one send and says whether another is due.
    pub fn record(&mut self, ok: bool) -> (r: SendStep)
        requires
            old(self).tried() < old(self).wanted(),
        ensures
            final(self).wanted() == old(self).wanted(),
            final(self).tried() == old(self).tried() + 1,
            final(self).went_through() == old(self).went_through() + if ok {
                1int
            } else {
                0
            },
            forall|outcomes: Seq<bool>| #[trigger]
                old(self).after(outcomes) ==> final(self).after(outcomes.push(ok)),
            r == SendStep::Finished <==> final(self).tried() == final(self).wanted(),
    {
        proof {
            use_type_invariant(&*self);
            assert forall|outcomes: Seq<bool>| successes(#[trigger] outcomes.push(ok)) == successes(outcomes) + if ok {
                1int
            } else {
                0
            } by {
                assert(outcomes.push(ok).drop_last() =~= outcomes);
            }
        }
        let repeat: u32 = self.repeat;
        let attempted: u32 = self.attempted + 1;
        let succeeded: u32 = if ok {
            self.succeeded + 1
        } else {
            self.succeeded
        };
        *self = SendRun { repeat, attempted, succeeded };
        if attempted < repeat {
            SendStep::Pause
        } else {
            SendStep::Finished
        }
    }

    /// What publishing came to, once the run is over.
    pub fn result(&self, plan: &PublishPlan) -> (r: PublishResult)
        requires
            self.wanted() == plan.repeat,
            self.tried() == self.wanted(),
        ensures
            r.topic_name@ == plan.topic_name@,
            r.bytes_sent == plan.bytes_sent,
            r.sends_succeeded == self.went_through(),
            r.sends_attempted == plan.repeat,
            r.sends_succeeded <= r.sends_attempted,
    {
        proof {
            use_type_invariant(self);
        }
        PublishResult {
            topic_name: plan.topic_name.clone(),
            bytes_sent: plan.bytes_sent,
            sends_succeeded: self.succeeded,
            sends_attempted: self.repeat,
        }
    }
}

/// A run that is over sent exactly as often as asked, which may be never, and once where nothing
/// was asked; what went through is what succeeded.
pub proof fn finished_runs_sent_all(run: SendRun, plan: PublishPlan, args: PublishArgs, outcomes: Seq<bool>)
    requires
        is_plan_of(plan, args),
        run.after(outcomes),
        run.wanted() == plan.repeat,
        run.tried() == run.wanted(),
    ensures
        outcomes.len() == match args.repeat {
            Some(n) => n as nat,
            None => 1,
        },
        run.went_through() == successes(outcomes),
        0 <= run.went_through() <= outcomes.len(),
{
    lemma_successes_bound(outcomes);
}

proof fn lemma_successes_bound(outcomes: Seq<bool>)
    ensures
        0 <= successes(outcomes) <= outcomes.len(),
    decreases outcomes.len(),
{
    if outcomes.len() > 0 {
        lemma_successes_bound(outcomes.drop_last());
    }
}

} // verus!
