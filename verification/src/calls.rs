//! Calls to other canisters: what is asked of them, and how they refuse.

use crate::numbers::Nat;
use crate::views::option_view;
use vstd::prelude::*;

verus! {

/// The kind of refusal of a call.
#[derive(Clone, Copy, Debug, PartialEq, Eq, Structural)]
pub enum RejectionCode {
    NoError,
    SysFatal,
    SysTransient,
    DestinationInvalid,
    CanisterReject,
    CanisterError,
    Unknown,
}

impl RejectionCode {
    /// The name under which the code is reported.
    pub open spec fn name(self) -> Seq<char> {
        match self {
            RejectionCode::NoError => "NoError"@,
            RejectionCode::SysFatal => "SysFatal"@,
            RejectionCode::SysTransient => "SysTransient"@,
            RejectionCode::DestinationInvalid => "DestinationInvalid"@,
            RejectionCode::CanisterReject => "CanisterReject"@,
            RejectionCode::CanisterError => "CanisterError"@,
            RejectionCode::Unknown => "Unknown"@,
        }
    }

    /// The name under which the code is reported.
    pub fn as_str(&self) -> (text: &'static str)
        ensures
            text@ == self.name(),
    {
        match self {
            RejectionCode::NoError => "NoError",
            RejectionCode::SysFatal => "SysFatal",
            RejectionCode::SysTransient => "SysTransient",
            RejectionCode::DestinationInvalid => "DestinationInvalid",
            RejectionCode::CanisterReject => "CanisterReject",
            RejectionCode::CanisterError => "CanisterError",
            RejectionCode::Unknown => "Unknown",
        }
    }
}

/// A refused call.
pub struct CallRejection {
    pub code: RejectionCode,
    pub message: String,
}

/// The mathematical counterpart of [`CallRejection`].
pub struct RejectionView {
    pub code: RejectionCode,
    pub message: Seq<char>,
}

impl View for CallRejection {
    type V = RejectionView;

    open spec fn view(&self) -> RejectionView {
        RejectionView { code: self.code, message: self.message@ }
    }
}

/// How a refused call is reported after `context`: the code, a period, the message.
pub open spec fn rejection_text(context: Seq<char>, rejection: RejectionView) -> Seq<char> {
    context + rejection.code.name() + ". "@ + rejection.message
}

/// Reports a refused call after `context`.
pub fn describe_rejection(context: &str, rejection: CallRejection) -> (text: String)
    ensures
        text@ == rejection_text(context@, rejection@),
{
    context.to_owned().concat(rejection.code.as_str()).concat(". ").concat(
        rejection.message.as_str(),
    )
}

/// A range of blocks to ask for.
pub struct GetBlocksArgs1 {
    pub start: Nat,
    pub length: Nat,
}

/// The mathematical counterpart of [`GetBlocksArgs1`].
pub struct BlocksView {
    pub start: nat,
    pub length: nat,
}

impl View for GetBlocksArgs1 {
    type V = BlocksView;

    open spec fn view(&self) -> BlocksView {
        BlocksView { start: self.start@, length: self.length@ }
    }
}

/// A call to make: the canister in textual form, its method, and the blocks asked for, if the
/// method takes any.
pub struct CanisterCall {
    pub canister: String,
    pub method: String,
    pub blocks: Option<GetBlocksArgs1>,
}

/// The mathematical counterpart of [`CanisterCall`].
pub struct CallView {
    pub canister: Seq<char>,
    pub method: Seq<char>,
    pub blocks: Option<BlocksView>,
}

impl View for CanisterCall {
    type V = CallView;

    open spec fn view(&self) -> CallView {
        CallView {
            canister: self.canister@,
            method: self.method@,
            blocks: option_view(self.blocks),
        }
    }
}

/// The call of a method without arguments.
pub open spec fn plain_call_view(canister: Seq<char>, method: Seq<char>) -> CallView {
    CallView { canister, method, blocks: None }
}

/// Makes the call of a method without arguments.
pub fn plain_call(canister: &str, method: &str) -> (call: CanisterCall)
    ensures
        call@ == plain_call_view(canister@, method@),
        call.canister@ == canister@,
        call.method@ == method@,
        call.blocks is None,
{
    CanisterCall { canister: canister.to_owned(), method: method.to_owned(), blocks: None }
}

/// A refused call is reported by the context, the name of the code, a period and the message, in
/// this order and in full.
pub proof fn law_rejection_spelled(context: Seq<char>, rejection: RejectionView)
    ensures
        rejection_text(context, rejection) == context + match rejection.code {
            RejectionCode::NoError => "NoError"@,
            RejectionCode::SysFatal => "SysFatal"@,
            RejectionCode::SysTransient => "SysTransient"@,
            RejectionCode::DestinationInvalid => "DestinationInvalid"@,
            RejectionCode::CanisterReject => "CanisterReject"@,
            RejectionCode::CanisterError => "CanisterError"@,
            RejectionCode::Unknown => "Unknown"@,
        } + ". "@ + rejection.message,
{
}

/// A report begins with its context and ends with the message.
pub proof fn law_rejection_keeps_message(context: Seq<char>, rejection: RejectionView)
    ensures
        ({
            let text = rejection_text(context, rejection);
            let before = text.len() - rejection.message.len();
            &&& before >= context.len()
            &&& text.take(context.len() as int) == context
            &&& text.skip(before) == rejection.message
        }),
{
    let text = rejection_text(context, rejection);
    let before = text.len() - rejection.message.len();
    assert(text.take(context.len() as int) =~= context);
    assert(text.skip(before) =~= rejection.message);
}

/// A call's counterpart names the same canister and method and asks for the same blocks.
pub proof fn law_call_view(call: CanisterCall)
    ensures
        call@.canister == call.canister@,
        call@.method == call.method@,
        call@.blocks is Some <==> call.blocks is Some,
        call.blocks is Some ==> call@.blocks->0.start == call.blocks->0.start@
            && call@.blocks->0.length == call.blocks->0.length@,
{
}

/// A refusal's counterpart has the same code and message.
pub proof fn law_rejection_view(rejection: CallRejection)
    ensures
        rejection@.code == rejection.code,
        rejection@.message == rejection.message@,
{
}

} // verus!
