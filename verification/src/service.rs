//! Calling a service method on every instance, and what the instances answer.

use vstd::prelude::*;
use vstd::utf8::*;

use crate::codec::base64_reading;
use crate::entries::opt_text;
use crate::payload::{
    bad_base64_text, decode_error, decode_fails, one_payload, payload_choice_text, recovers,
    show_payload, shown_base64, shown_text, take_payload, Payload, PayloadError, ToolError,
};
use crate::publish::value_or;
use crate::seqs::{filter_all, filter_none, filter_start, filter_step};
use crate::text::{debug_form, quoted};

verus! {

/// What a caller asks to be called.
#[derive(Debug)]
pub struct CallServiceArgs {
    pub service: String,
    pub method: String,
    pub text: Option<String>,
    pub payload_base64: Option<String>,
    /// Timeout of each call, in milliseconds; 2000 where left out.
    pub timeout_ms: Option<i32>,
    /// How long to wait for an instance, in milliseconds; 1000 where left out.
    pub discovery_wait_ms: Option<u64>,
    /// The one instance whose answer counts.
    pub target_service_id: Option<u64>,
}

/// A call, every default filled in.
#[derive(Debug)]
pub struct CallPlan {
    pub service: String,
    pub method: String,
    pub payload: Vec<u8>,
    pub timeout_ms: i32,
    pub discovery_wait_ms: u64,
    pub target_service_id: Option<u64>,
}

/// `plan` does what `args` ask.
pub open spec fn is_call_of(plan: CallPlan, args: CallServiceArgs) -> bool {
    &&& plan.service == args.service
    &&& plan.method == args.method
    &&& one_payload(args.text, args.payload_base64)
    &&& !decode_fails(args.text, args.payload_base64)
    &&& plan.payload@ == match args.text {
        Some(t) => encode_utf8(t@),
        None => base64_reading(args.payload_base64->Some_0@)->Ok_0,
    }
    &&& plan.timeout_ms == match args.timeout_ms {
        Some(t) => t,
        None => 2000,
    }
    &&& plan.discovery_wait_ms == value_or(args.discovery_wait_ms, 1000)
    &&& plan.target_service_id == args.target_service_id
}

/// `r` is what comes of asking for `args`.
pub open spec fn is_call_outcome(r: Result<CallPlan, ToolError>, args: CallServiceArgs) -> bool {
    match r {
        Ok(plan) => is_call_of(plan, args),
        Err(ToolError::InvalidParams(m)) => {
            ||| !one_payload(args.text, args.payload_base64) && m@ == payload_choice_text()
            ||| decode_fails(args.text, args.payload_base64) && m@ == bad_base64_text(
                decode_error(args.payload_base64),
            )
        },
        Err(ToolError::Internal(_)) => false,
    }
}

/// Settles what to call. Whatever is wrong with the payload is the caller's fault.
pub fn plan_call(args: CallServiceArgs) -> (r: Result<CallPlan, ToolError>)
    ensures
        is_call_outcome(r, args),
{
    let timeout_ms: i32 = match args.timeout_ms {
        Some(t) => t,
        None => 2000,
    };
    let discovery_wait_ms: u64 = match args.discovery_wait_ms {
        Some(v) => v,
        None => 1000,
    };
    match take_payload(args.text, args.payload_base64) {
        Ok(p) => {
            let payload = match p {
                Payload::Text(t) => vstd::slice::slice_to_vec(t.as_str().as_bytes()),
                Payload::Bytes(b) => b,
            };
            Ok(
                CallPlan {
                    service: args.service,
                    method: args.method,
                    payload,
                    timeout_ms,
                    discovery_wait_ms,
                    target_service_id: args.target_service_id,
                },
            )
        },
        Err(PayloadError::Choice) => Err(
            ToolError::InvalidParams(
                "exactly one of `text` or `payload_base64` must be provided".to_owned(),
            ),
        ),
        Err(PayloadError::Base64(e)) => {
            let mut m = "invalid base64: ".to_owned();
            m.append(e.as_str());
            Err(ToolError::InvalidParams(m))
        },
    }
}

/// What one instance answered.
#[derive(Debug)]
pub struct ServiceReply {
    pub service_id: u64,
    pub process_id: i32,
    pub host_name: String,
    pub success: bool,
    pub error: Option<String>,
    pub payload: Vec<u8>,
}

/// One answer as it is shown.
#[derive(Debug)]
pub struct ServiceCallResponse {
    /// Position among the answers that are shown.
    pub instance_index: usize,
    pub success: bool,
    /// Why the call failed; never on success.
    pub error: Option<String>,
    pub service_id: u64,
    pub service_process_id: i32,
    pub service_host_name: String,
    pub response_size: usize,
    pub response_text: Option<String>,
    pub response_base64: Option<String>,
}

/// What a call came to.
#[derive(Debug)]
pub struct CallServiceResult {
    pub service: String,
    pub method: String,
    /// Instances found, whichever of them count.
    pub discovered_instances: usize,
    /// The target asked for, where an instance was found at all.
    pub requested_target_service_id: Option<u64>,
    pub responses: Vec<ServiceCallResponse>,
}

/// An answer counts: without a target every one, with a target only one that carries its
/// identifier. A call that could not be made has none.
pub open spec fn counts(reply: Option<ServiceReply>, target: Option<u64>) -> bool {
    match (target, reply) {
        (None, _) => true,
        (Some(t), Some(r)) => r.service_id == t,
        (Some(_), None) => false,
    }
}

/// The wording of a call that could not be made; `quoted` is the method as `Debug` writes it.
pub open spec fn no_reply_text(quoted: Seq<char>) -> Seq<char> {
    "rustecal returned None for method "@ + quoted + " (likely an interior NUL in the method name)"@
}

/// Words a call that could not be made.
pub fn no_reply_message(quoted: &str) -> (r: String)
    ensures
        r@ == no_reply_text(quoted@),
{
    let mut r = "rustecal returned None for method ".to_owned();
    r.append(quoted);
    r.append(" (likely an interior NUL in the method name)");
    r
}

/// `row` shows the answer `reply` at position `index`.
pub open spec fn is_response_row(
    row: ServiceCallResponse,
    reply: Option<ServiceReply>,
    index: int,
    method: Seq<char>,
) -> bool {
    &&& row.instance_index == index
    &&& match reply {
        Some(r) => {
            &&& row.success == r.success
            &&& opt_text(row.error) == if r.success {
                None
            } else {
                opt_text(r.error)
            }
            &&& row.service_id == r.service_id
            &&& row.service_process_id == r.process_id
            &&& row.service_host_name@ == r.host_name@
            &&& row.response_size == r.payload@.len()
            &&& opt_text(row.response_text) == shown_text(r.payload@)
            &&& opt_text(row.response_base64) == shown_base64(r.payload@)
            &&& recovers(row.response_text, row.response_base64, r.payload@)
        },
        None => {
            &&& !row.success
            &&& opt_text(row.error) == Some(no_reply_text(debug_form(method)))
            &&& row.service_id == 0
            &&& row.service_process_id == 0
            &&& row.service_host_name@ == Seq::<char>::empty()
            &&& row.response_size == 0
            &&& row.response_text is None
            &&& row.response_base64 is None
        },
    }
}

/// The answers that count, in order.
pub open spec fn counting(replies: Seq<Option<ServiceReply>>, target: Option<u64>) -> Seq<
    Option<ServiceReply>,
> {
    replies.filter(|r: Option<ServiceReply>| counts(r, target))
}

/// `rows` shows each of `replies`, in order.
pub open spec fn are_response_rows(
    rows: Seq<ServiceCallResponse>,
    replies: Seq<Option<ServiceReply>>,
    method: Seq<char>,
) -> bool {
    &&& rows.len() == replies.len()
    &&& forall|i: int| 0 <= i < rows.len() ==> is_response_row(#[trigger] rows[i], replies[i], i, method)
}

fn response(reply: &ServiceReply, index: usize) -> (row: ServiceCallResponse)
    ensures
        forall|method: Seq<char>| #[trigger] is_response_row(row, Some(*reply), index as int, method),
{
    let (response_text, response_base64) = show_payload(reply.payload.as_slice());
    let error = match &reply.error {
        Some(e) => if reply.success {
            None
        } else {
            Some(e.clone())
        },
        None => None,
    };
    ServiceCallResponse {
        instance_index: index,
        success: reply.success,
        error,
        service_id: reply.service_id,
        service_process_id: reply.process_id,
        service_host_name: reply.host_name.clone(),
        response_size: reply.payload.len(),
        response_text,
        response_base64,
    }
}

fn no_response(method: &str, index: usize) -> (row: ServiceCallResponse)
    ensures
        is_response_row(row, None, index as int, method@),
{
    let error = no_reply_message(quoted(method).as_str());
    ServiceCallResponse {
        instance_index: index,
        success: false,
        error: Some(error),
        service_id: 0,
        service_process_id: 0,
        service_host_name: String::new(),
        response_size: 0,
        response_text: None,
        response_base64: None,
    }
}

/// `r` is what a call came to, given one answer per instance in the order of discovery.
pub open spec fn is_call_result(r: CallServiceResult, plan: CallPlan, replies: Seq<Option<ServiceReply>>) -> bool {
    &&& r.service@ == plan.service@
    &&& r.method@ == plan.method@
    &&& r.discovered_instances == replies.len()
    &&& r.requested_target_service_id == if replies.len() == 0 {
        None
    } else {
        plan.target_service_id
    }
    &&& are_response_rows(r.responses@, counting(replies, plan.target_service_id), plan.method@)
}

/// Gathers the answers. `replies` has one entry per instance; none where the call could not be
/// made.
pub fn call_result(plan: &CallPlan, replies: &Vec<Option<ServiceReply>>) -> (r: CallServiceResult)
    ensures
        is_call_result(r, *plan, replies@),
{
    let ghost target = plan.target_service_id;
    let ghost pred = |r: Option<ServiceReply>| counts(r, target);
    let mut responses: Vec<ServiceCallResponse> = Vec::new();
    let mut i: usize = 0;
    proof {
        filter_start(replies@, pred);
    }
    while i < replies.len()
        invariant
            i <= replies.len(),
            target == plan.target_service_id,
            pred == (|r: Option<ServiceReply>| counts(r, target)),
            are_response_rows(responses@, replies@.take(i as int).filter(pred), plan.method@),
        decreases replies.len() - i,
    {
        proof {
            filter_step(replies@, pred, i as int);
        }
        let index: usize = responses.len();
        match &replies[i] {
            Some(reply) => {
                let wanted = match plan.target_service_id {
                    Some(t) => reply.service_id == t,
                    None => true,
                };
                if wanted {
                    let row = response(reply, index);
                    assert(is_response_row(row, replies@[i as int], index as int, plan.method@));
                    responses.push(row);
                }
            },
            None => {
                if plan.target_service_id.is_none() {
                    responses.push(no_response(plan.method.as_str(), index));
                }
            },
        }
        i += 1;
    }
    assert(replies@.take(i as int) =~= replies@);
    let requested_target_service_id = if replies.len() == 0 {
        None
    } else {
        plan.target_service_id
    };
    CallServiceResult {
        service: plan.service.clone(),
        method: plan.method.clone(),
        discovered_instances: replies.len(),
        requested_target_service_id,
        responses,
    }
}

/// A caller can tell a service that is gone from a target that no instance has: in both cases no
/// answer is shown, but the target is echoed only where instances were found. Every answer that
/// is shown under a target carries its identifier, and without a target every instance has one.
pub proof fn gone_and_filtered_differ(r: CallServiceResult, plan: CallPlan, replies: Seq<Option<ServiceReply>>)
    requires
        is_call_result(r, plan, replies),
    ensures
        r.discovered_instances == 0 ==> r.responses@.len() == 0 && r.requested_target_service_id is None,
        r.discovered_instances > 0 ==> r.requested_target_service_id == plan.target_service_id,
        r.responses@.len() <= r.discovered_instances,
        plan.target_service_id matches Some(t) ==> forall|i: int|
            0 <= i < r.responses@.len() ==> (#[trigger] r.responses@[i]).service_id == t,
        plan.target_service_id is None ==> r.responses@.len() == r.discovered_instances,
        forall|i: int| 0 <= i < r.responses@.len() ==> (#[trigger] r.responses@[i]).instance_index == i,
{
    let pred = |x: Option<ServiceReply>| counts(x, plan.target_service_id);
    let kept = counting(replies, plan.target_service_id);
    replies.lemma_filter_len(pred);
    assert forall|i: int| 0 <= i < kept.len() implies counts(#[trigger] kept[i], plan.target_service_id) by {
        replies.lemma_filter_pred(pred, i);
    }
    if plan.target_service_id is Some {
        assert forall|i: int| 0 <= i < r.responses@.len() implies (#[trigger] r.responses@[i]).service_id
            == plan.target_service_id->Some_0 by {
            assert(counts(kept[i], plan.target_service_id));
            assert(is_response_row(r.responses@[i], kept[i], i, plan.method@));
        }
    } else {
        filter_all(replies, pred);
    }
}

/// No two answers come from one instance.
pub open spec fn distinct_instances(replies: Seq<Option<ServiceReply>>) -> bool {
    forall|i: int, j: int|
        0 <= i < replies.len() && 0 <= j < replies.len() && (#[trigger] replies[i]) is Some && (
        #[trigger] replies[j]) is Some && replies[i]->Some_0.service_id == replies[j]->Some_0.service_id
            ==> i == j
}

proof fn lemma_one_counts(replies: Seq<Option<ServiceReply>>, t: u64)
    requires
        distinct_instances(replies),
    ensures
        counting(replies, Some(t)).len() <= 1,
    decreases replies.len(),
{
    reveal(Seq::filter);
    let pred = |r: Option<ServiceReply>| counts(r, Some(t));
    if replies.len() > 0 {
        let rest = replies.drop_last();
        if counts(replies.last(), Some(t)) {
            assert forall|k: int| 0 <= k < rest.len() implies !pred(#[trigger] rest[k]) by {
                assert(rest[k] == replies[k]);
                assert(replies[replies.len() - 1] == replies.last());
            }
            filter_none(rest, pred);
        } else {
            assert(distinct_instances(rest)) by {
                assert forall|i: int, j: int|
                    0 <= i < rest.len() && 0 <= j < rest.len() && (#[trigger] rest[i]) is Some && (
                    #[trigger] rest[j]) is Some && rest[i]->Some_0.service_id == rest[j]->Some_0.service_id
                    implies i == j by {
                    assert(replies[i] == rest[i] && replies[j] == rest[j]);
                }
            }
            lemma_one_counts(rest, t);
        }
    }
}

/// Under a target at most one answer is shown, at position zero, as long as no two instances
/// share an identifier.
pub proof fn one_target_one_answer(r: CallServiceResult, plan: CallPlan, replies: Seq<Option<ServiceReply>>)
    requires
        is_call_result(r, plan, replies),
        plan.target_service_id is Some,
        distinct_instances(replies),
    ensures
        r.responses@.len() <= 1,
        r.responses@.len() == 1 ==> r.responses@[0].instance_index == 0 && r.responses@[0].service_id
            == plan.target_service_id->Some_0,
{
    lemma_one_counts(replies, plan.target_service_id->Some_0);
    gone_and_filtered_differ(r, plan, replies);
}

/// An answer that carries an error is never a success.
pub proof fn errors_come_with_failure(r: CallServiceResult, plan: CallPlan, replies: Seq<Option<ServiceReply>>)
    requires
        is_call_result(r, plan, replies),
    ensures
        forall|i: int|
            0 <= i < r.responses@.len() && (#[trigger] r.responses@[i]).error is Some
                ==> !r.responses@[i].success,
{
    let kept = counting(replies, plan.target_service_id);
    assert forall|i: int| 0 <= i < r.responses@.len() && (#[trigger] r.responses@[i]).error is Some implies
        !r.responses@[i].success by {
        assert(is_response_row(r.responses@[i], kept[i], i, plan.method@));
    }
}

} // verus!
