//! Choosing the target ledger, once.
//!
//! [`t3_impl_set_target_canister`] gives the first step. The replies to the calls for the fee and
//! for the decimals go to the pending parts of the steps.

use crate::calls::{
    describe_rejection, plain_call, plain_call_view, rejection_text, CallRejection, CallView,
    CanisterCall, RejectionView,
};
use crate::download::{download_begin, DownloadStepView};
use crate::numbers::{nat_to_u128, too_large_for_u128, Nat};
use crate::runtime::{RuntimeState, RuntimeView};
use crate::views::{result_view, views};
use vstd::prelude::*;

verus! {

/// The nanoseconds in an hour.
pub const HOUR_AS_NANOS: u64 = 3_600_000_000_000;

/// The nanoseconds in a day.
pub const DAY_AS_NANOS: u64 = 86_400_000_000_000;

/// The ledger to follow, and for how many hours and days its blocks count as recent.
pub struct SetTargetArgs {
    pub target_ledger: String,
    pub hourly_size: u8,
    pub daily_size: u8,
}

/// The mathematical counterpart of [`SetTargetArgs`].
pub struct SetTargetView {
    pub target_ledger: Seq<char>,
    pub hourly_size: u8,
    pub daily_size: u8,
}

impl View for SetTargetArgs {
    type V = SetTargetView;

    open spec fn view(&self) -> SetTargetView {
        SetTargetView {
            target_ledger: self.target_ledger@,
            hourly_size: self.hourly_size,
            daily_size: self.daily_size,
        }
    }
}

/// A setup that waits for the ledger's fee.
pub struct FeePending {
    pub args: SetTargetArgs,
}

/// A setup that waits for the ledger's decimals; it keeps the errors met so far.
pub struct DecimalsPending {
    pub args: SetTargetArgs,
    pub errors: Vec<String>,
}

/// What to do next for a setup.
pub enum SetTargetStep {
    /// Give up, undoing what the current message did.
    Trap(String),
    /// Make the call and hand its reply on.
    CallFee { call: CanisterCall, pending: FeePending },
    CallDecimals { call: CanisterCall, pending: DecimalsPending },
    /// Answer with this result.
    Return(Result<String, String>),
}

/// The mathematical counterpart of [`SetTargetStep`].
pub enum SetTargetStepView {
    Trap(Seq<char>),
    CallFee { call: CallView, args: SetTargetView },
    CallDecimals { call: CallView, args: SetTargetView, errors: Seq<Seq<char>> },
    Return(Result<Seq<char>, Seq<char>>),
}

impl View for SetTargetStep {
    type V = SetTargetStepView;

    open spec fn view(&self) -> SetTargetStepView {
        match *self {
            SetTargetStep::Trap(message) => SetTargetStepView::Trap(message@),
            SetTargetStep::CallFee { call, pending } => SetTargetStepView::CallFee {
                call: call@,
                args: pending.args@,
            },
            SetTargetStep::CallDecimals { call, pending } => SetTargetStepView::CallDecimals {
                call: call@,
                args: pending.args@,
                errors: views(pending.errors@),
            },
            SetTargetStep::Return(result) => SetTargetStepView::Return(result_view(result)),
        }
    }
}

/// A ledger's answer to the question for its fee, or its refusal.
pub type FeeReplyView = Result<nat, RejectionView>;

/// A ledger's answer to the question for its decimals, or its refusal.
pub type DecimalsReplyView = Result<u8, RejectionView>;

/// The text that `{:?}` gives for a list of strings.
pub uninterp spec fn debug_text(texts: Seq<Seq<char>>) -> Seq<char>;

/// The first step: refused once the target ledger is set, else the question for the fee.
pub open spec fn setup_begin(runtime: RuntimeView, args: SetTargetView) -> SetTargetStepView {
    if runtime.target_ledger_locked {
        SetTargetStepView::Trap(
            "Target canister can't be changed after being set. Re-install canister to change."@,
        )
    } else {
        SetTargetStepView::CallFee {
            call: plain_call_view(args.target_ledger, "icrc1_fee"@),
            args,
        }
    }
}

/// The state and the step that follow the reply for the fee. A fee that fits is remembered, one
/// that does not ends the setup, and a refusal is noted before the setup goes on.
pub open spec fn after_fee(runtime: RuntimeView, args: SetTargetView, reply: FeeReplyView) -> (
    RuntimeView,
    SetTargetStepView,
) {
    let call = plain_call_view(args.target_ledger, "icrc1_decimals"@);
    match reply {
        Ok(fee) => if fee <= u128::MAX {
            (
                RuntimeView { ledger_fee: fee as u128, ..runtime },
                SetTargetStepView::CallDecimals { call, args, errors: Seq::empty() },
            )
        } else {
            (runtime, SetTargetStepView::Return(Err(too_large_for_u128())))
        },
        Err(rejection) => (
            runtime,
            SetTargetStepView::CallDecimals {
                call,
                args,
                errors: seq![rejection_text("Call 1 - "@, rejection)],
            },
        ),
    }
}

/// The state with the decimals that a reply gave, if it did.
pub open spec fn with_decimals(runtime: RuntimeView, reply: DecimalsReplyView) -> RuntimeView {
    match reply {
        Ok(decimals) => RuntimeView { ledger_decimals: decimals, ..runtime },
        Err(rejection) => runtime,
    }
}

/// The errors after the reply for the decimals.
pub open spec fn all_errors(errors: Seq<Seq<char>>, reply: DecimalsReplyView) -> Seq<Seq<char>> {
    match reply {
        Ok(decimals) => errors,
        Err(rejection) => errors.push(rejection_text("Call 2 - "@, rejection)),
    }
}

/// The state with the target ledger set, for good.
pub open spec fn with_target(runtime: RuntimeView, args: SetTargetView) -> RuntimeView {
    RuntimeView {
        target_ledger: args.target_ledger,
        target_ledger_locked: true,
        hours_nano: (args.hourly_size * HOUR_AS_NANOS) as u64,
        days_nano: (args.daily_size * DAY_AS_NANOS) as u64,
        ..runtime
    }
}

/// The state and the answer after the reply for the decimals, where `report` is how the errors
/// are reported.
pub open spec fn setup_end(
    runtime: RuntimeView,
    args: SetTargetView,
    errors: Seq<Seq<char>>,
    report: Seq<char>,
) -> (RuntimeView, Result<Seq<char>, Seq<char>>) {
    if errors.len() > 0 {
        (runtime, Err(report))
    } else {
        (with_target(runtime, args), Ok("Target canister, fee and decimals set"@))
    }
}

/// The state and the step that follow the reply for the decimals. They are remembered; the
/// target ledger is set only if neither call was refused.
pub open spec fn after_decimals(
    runtime: RuntimeView,
    args: SetTargetView,
    errors: Seq<Seq<char>>,
    reply: DecimalsReplyView,
) -> (RuntimeView, SetTargetStepView) {
    let errors = all_errors(errors, reply);
    let (state, answer) = setup_end(
        with_decimals(runtime, reply),
        args,
        errors,
        debug_text(errors),
    );
    (state, SetTargetStepView::Return(answer))
}

/// Calls `format!` with `{:?}` on a list of strings. The result is a function of the strings
/// alone (each quoted and escaped, in brackets); it is named, not spelled out.
#[verifier::external_body]
fn debug_strings(texts: &Vec<String>) -> (text: String)
    ensures
        text@ == debug_text(views(texts@)),
{
    format!("{:?}", texts)
}

/// Starts to set the target ledger.
pub fn t3_impl_set_target_canister(runtime: &RuntimeState, args: SetTargetArgs) -> (step:
    SetTargetStep)
    ensures
        step@ == setup_begin(runtime@, args@),
        match step {
            SetTargetStep::Trap(message) => runtime.target_ledger_locked && message@
                == "Target canister can't be changed after being set. Re-install canister to change."@,
            SetTargetStep::CallFee { call, pending } => {
                &&& !runtime.target_ledger_locked
                &&& pending.args == args
                &&& call.canister@ == args.target_ledger@
                &&& call.method@ == "icrc1_fee"@
                &&& call.blocks is None
            },
            _ => false,
        },
{
    if runtime.target_ledger_locked {
        return SetTargetStep::Trap(
            "Target canister can't be changed after being set. Re-install canister to change.".to_owned(),
        );
    }
    let call: CanisterCall = plain_call(args.target_ledger.as_str(), "icrc1_fee");
    SetTargetStep::CallFee { call, pending: FeePending { args } }
}

impl FeePending {
    /// Takes the reply for the fee.
    pub fn reply(self, runtime: &mut RuntimeState, reply: Result<Nat, CallRejection>) -> (step:
        SetTargetStep)
        ensures
            (final(runtime)@, step@) == after_fee(old(runtime)@, self.args@, result_view(reply)),
            match step {
                SetTargetStep::CallDecimals { call, pending } => {
                    &&& reply is Ok ==> final(runtime).ledger_fee as int == reply->Ok_0@
                    &&& pending.args == self.args
                    &&& pending.errors@.len() == if reply is Ok { 0int } else { 1int }
                    &&& call.canister@ == self.args.target_ledger@
                    &&& call.method@ == "icrc1_decimals"@
                    &&& call.blocks is None
                },
                SetTargetStep::Return(answer) => reply is Ok && reply->Ok_0@ > u128::MAX
                    && answer is Err && answer->Err_0@ == "Nat does not fit in u128"@,
                _ => false,
            },
    {
        let mut errors: Vec<String> = Vec::new();
        match reply {
            Ok(fee) => match nat_to_u128(fee) {
                Ok(value) => {
                    runtime.ledger_fee = value;
                    assert(views(errors@) =~= Seq::<Seq<char>>::empty());
                },
                Err(error) => {
                    return SetTargetStep::Return(Err(error));
                },
            },
            Err(rejection) => {
                errors.push(describe_rejection("Call 1 - ", rejection));
                assert(views(errors@) =~= seq![rejection_text("Call 1 - "@, rejection@)]);
            },
        }
        let call: CanisterCall = plain_call(self.args.target_ledger.as_str(), "icrc1_decimals");
        SetTargetStep::CallDecimals { call, pending: DecimalsPending { args: self.args, errors } }
    }
}

/// Ends a setup: reports the errors as `report`, or sets the target ledger where there are none.
pub fn finish_setup(
    runtime: &mut RuntimeState,
    args: SetTargetArgs,
    errors: &Vec<String>,
    report: String,
) -> (result: Result<String, String>)
    ensures
        (final(runtime)@, result_view(result)) == setup_end(
            old(runtime)@,
            args@,
            views(errors@),
            report@,
        ),
        errors@.len() == 0 ==> {
            &&& result is Ok
            &&& result->Ok_0@ == "Target canister, fee and decimals set"@
            &&& final(runtime).target_ledger@ == args.target_ledger@
            &&& final(runtime).target_ledger_locked
            &&& final(runtime).hours_nano as int == args.hourly_size * 3_600_000_000_000
            &&& final(runtime).days_nano as int == args.daily_size * 86_400_000_000_000
        },
        errors@.len() > 0 ==> result is Err && result->Err_0@ == report@ && *final(runtime)
            == *old(runtime),
{
    if !errors.is_empty() {
        return Err(report);
    }
    runtime.hours_nano = args.hourly_size as u64 * HOUR_AS_NANOS;
    runtime.days_nano = args.daily_size as u64 * DAY_AS_NANOS;
    runtime.target_ledger = args.target_ledger;
    runtime.target_ledger_locked = true;
    Ok("Target canister, fee and decimals set".to_owned())
}

impl DecimalsPending {
    /// Takes the reply for the decimals.
    pub fn reply(self, runtime: &mut RuntimeState, reply: Result<u8, CallRejection>) -> (step:
        SetTargetStep)
        ensures
            (final(runtime)@, step@) == after_decimals(
                old(runtime)@,
                self.args@,
                views(self.errors@),
                match reply {
                    Ok(decimals) => Ok(decimals),
                    Err(rejection) => Err(rejection@),
                },
            ),
    {
        let mut errors: Vec<String> = self.errors;
        match reply {
            Ok(decimals) => {
                runtime.ledger_decimals = decimals;
            },
            Err(rejection) => {
                let ghost expected = views(errors@).push(
                    rejection_text("Call 2 - "@, rejection@),
                );
                errors.push(describe_rejection("Call 2 - ", rejection));
                assert(views(errors@) =~= expected);
            },
        }
        let report: String = debug_strings(&errors);
        SetTargetStep::Return(finish_setup(runtime, self.args, &errors, report))
    }
}

/// The state and the answer of a setup that is not refused at once, for the replies to its two
/// calls, if nothing else changes the state meanwhile.
pub open spec fn setup_run(
    runtime: RuntimeView,
    args: SetTargetView,
    fee: FeeReplyView,
    decimals: DecimalsReplyView,
) -> (RuntimeView, SetTargetStepView) {
    let (state, step) = after_fee(runtime, args, fee);
    match step {
        SetTargetStepView::CallDecimals { call, args, errors } => after_decimals(
            state,
            args,
            errors,
            decimals,
        ),
        _ => (state, step),
    }
}

/// A setup succeeds exactly when the ledger tells both its fee, which must fit, and its decimals.
/// It then sets all of them together with the ledger, and locks the choice.
pub proof fn law_setup_succeeds(
    runtime: RuntimeView,
    args: SetTargetView,
    fee: FeeReplyView,
    decimals: DecimalsReplyView,
)
    ensures
        ({
            let (state, step) = setup_run(runtime, args, fee, decimals);
            if fee is Ok && fee->Ok_0 <= u128::MAX && decimals is Ok {
                &&& step == SetTargetStepView::Return(Ok("Target canister, fee and decimals set"@))
                &&& state == RuntimeView {
                    target_ledger: args.target_ledger,
                    target_ledger_locked: true,
                    ledger_fee: fee->Ok_0 as u128,
                    ledger_decimals: decimals->Ok_0,
                    hours_nano: (args.hourly_size * HOUR_AS_NANOS) as u64,
                    days_nano: (args.daily_size * DAY_AS_NANOS) as u64,
                    ..runtime
                }
            } else {
                step matches SetTargetStepView::Return(Err(error))
            }
        }),
{
}

/// A setup that fails leaves the choice of the ledger, its lock and the time windows as they
/// were; only the fee or the decimals may have been noted.
pub proof fn law_failed_setup_keeps_target(
    runtime: RuntimeView,
    args: SetTargetView,
    fee: FeeReplyView,
    decimals: DecimalsReplyView,
)
    requires
        setup_run(runtime, args, fee, decimals).1 matches SetTargetStepView::Return(Err(error)),
    ensures
        ({
            let state = setup_run(runtime, args, fee, decimals).0;
            state == RuntimeView {
                ledger_fee: state.ledger_fee,
                ledger_decimals: state.ledger_decimals,
                ..runtime
            }
        }),
{
}

/// The errors of a setup whose calls are refused are reported in the order of the calls.
pub proof fn law_setup_reports_refusals(
    runtime: RuntimeView,
    args: SetTargetView,
    fee: RejectionView,
    decimals: RejectionView,
)
    ensures
        setup_run(runtime, args, Err(fee), Err(decimals)) == (
            runtime,
            SetTargetStepView::Return(
                Err(
                    debug_text(
                        seq![
                            rejection_text("Call 1 - "@, fee),
                            rejection_text("Call 2 - "@, decimals),
                        ],
                    ),
                ),
            ),
        ),
{
    assert(seq![rejection_text("Call 1 - "@, fee)].push(rejection_text("Call 2 - "@, decimals))
        =~= seq![rejection_text("Call 1 - "@, fee), rejection_text("Call 2 - "@, decimals)]);
}

/// After a setup that succeeded, every other setup is refused, and downloads ask the chosen
/// ledger.
pub proof fn law_target_set_once(
    runtime: RuntimeView,
    args: SetTargetView,
    fee: FeeReplyView,
    decimals: DecimalsReplyView,
    other: SetTargetView,
)
    requires
        setup_run(runtime, args, fee, decimals).1 matches SetTargetStepView::Return(Ok(answer)),
    ensures
        ({
            let state = setup_run(runtime, args, fee, decimals).0;
            &&& setup_begin(state, other) == SetTargetStepView::Trap(
                "Target canister can't be changed after being set. Re-install canister to change."@,
            )
            &&& download_begin(state) == DownloadStepView::CallTip {
                call: plain_call_view(args.target_ledger, "get_total_tx"@),
                ledger: args.target_ledger,
            }
        }),
{
}

/// A setup is refused exactly when the target ledger is set already, whatever is asked for.
/// Otherwise it asks the ledger that the user named for its fee, and keeps the user's arguments.
pub proof fn law_setup_first_step(runtime: RuntimeView, args: SetTargetView)
    ensures
        match setup_begin(runtime, args) {
            SetTargetStepView::Trap(message) => runtime.target_ledger_locked && message
                == "Target canister can't be changed after being set. Re-install canister to change."@,
            SetTargetStepView::CallFee { call, args: kept } => {
                &&& !runtime.target_ledger_locked
                &&& call.canister == args.target_ledger
                &&& call.method == "icrc1_fee"@
                &&& call.blocks is None
                &&& kept.target_ledger == args.target_ledger
                &&& kept.hourly_size == args.hourly_size
                &&& kept.daily_size == args.daily_size
            },
            _ => false,
        },
{
}

/// Whatever the ledger replies about its fee, nothing but the fee in the state changes, and that
/// only to the number that the ledger told. The setup then asks the same ledger for its decimals,
/// unless the fee does not fit.
pub proof fn law_setup_second_step(runtime: RuntimeView, args: SetTargetView, fee: FeeReplyView)
    ensures
        ({
            let (state, step) = after_fee(runtime, args, fee);
            &&& state == RuntimeView { ledger_fee: state.ledger_fee, ..runtime }
            &&& if fee is Ok && fee->Ok_0 <= u128::MAX {
                state.ledger_fee as int == fee->Ok_0
            } else {
                state.ledger_fee == runtime.ledger_fee
            }
            &&& match step {
                SetTargetStepView::CallDecimals { call, args: kept, errors } => {
                    &&& fee is Err || fee->Ok_0 <= u128::MAX
                    &&& call.canister == args.target_ledger
                    &&& call.method == "icrc1_decimals"@
                    &&& call.blocks is None
                    &&& kept.target_ledger == args.target_ledger
                    &&& kept.hourly_size == args.hourly_size
                    &&& kept.daily_size == args.daily_size
                    &&& fee is Ok ==> errors.len() == 0
                    &&& fee is Err ==> errors == seq![
                        "Call 1 - "@ + fee->Err_0.code.name() + ". "@ + fee->Err_0.message,
                    ]
                },
                SetTargetStepView::Return(answer) => {
                    &&& fee is Ok && fee->Ok_0 > u128::MAX
                    &&& answer is Err
                    &&& answer->Err_0 == "Nat does not fit in u128"@
                },
                _ => false,
            }
        }),
{
}

/// A setup that is driven from its first step through both replies, with the state being
/// `meanwhile` when the second one comes, sets what the user asked for exactly when the ledger
/// told both its fee and its decimals: the user's ledger, and as many hours and days as the user
/// gave, in nanoseconds. Otherwise it reports the refusals in the order of the calls and sets
/// nothing but the decimals, if it got them.
pub proof fn law_setup_driven(
    runtime: RuntimeView,
    args: SetTargetView,
    fee: FeeReplyView,
    meanwhile: RuntimeView,
    decimals: DecimalsReplyView,
)
    requires
        !runtime.target_ledger_locked,
        fee is Ok ==> fee->Ok_0 <= u128::MAX,
    ensures
        ({
            let asked = after_fee(runtime, setup_begin(runtime, args)->CallFee_args, fee).1;
            let (state, step) = after_decimals(
                meanwhile,
                asked->CallDecimals_args,
                asked->CallDecimals_errors,
                decimals,
            );
            let first = "Call 1 - "@ + fee->Err_0.code.name() + ". "@ + fee->Err_0.message;
            let second = "Call 2 - "@ + decimals->Err_0.code.name() + ". "@
                + decimals->Err_0.message;
            &&& setup_begin(runtime, args) is CallFee
            &&& asked is CallDecimals
            &&& state.ledger_fee == meanwhile.ledger_fee
            &&& state.ledger_tip_of_chain == meanwhile.ledger_tip_of_chain
            &&& state.next_block == meanwhile.next_block
            &&& state.is_upto_date == meanwhile.is_upto_date
            &&& state.ledger_decimals == match decimals {
                Ok(number) => number,
                Err(rejection) => meanwhile.ledger_decimals,
            }
            &&& match (fee, decimals) {
                (Ok(_), Ok(_)) => {
                    &&& step == SetTargetStepView::Return(
                        Ok("Target canister, fee and decimals set"@),
                    )
                    &&& state.target_ledger == args.target_ledger
                    &&& state.target_ledger_locked
                    &&& state.hours_nano as int == args.hourly_size * 3_600_000_000_000
                    &&& state.days_nano as int == args.daily_size * 86_400_000_000_000
                },
                _ => {
                    &&& state.target_ledger == meanwhile.target_ledger
                    &&& state.target_ledger_locked == meanwhile.target_ledger_locked
                    &&& state.hours_nano == meanwhile.hours_nano
                    &&& state.days_nano == meanwhile.days_nano
                    &&& step == SetTargetStepView::Return(
                        Err(
                            debug_text(
                                if decimals is Ok {
                                    seq![first]
                                } else if fee is Ok {
                                    seq![second]
                                } else {
                                    seq![first, second]
                                },
                            ),
                        ),
                    )
                },
            }
        }),
{
    let asked = after_fee(runtime, args, fee).1;
    let all = all_errors(asked->CallDecimals_errors, decimals);
    let first = "Call 1 - "@ + fee->Err_0.code.name() + ". "@ + fee->Err_0.message;
    let second = "Call 2 - "@ + decimals->Err_0.code.name() + ". "@ + decimals->Err_0.message;
    if fee is Err && decimals is Ok {
        assert(all =~= seq![first]);
    } else if fee is Ok && decimals is Err {
        assert(all =~= seq![second]);
    } else if fee is Err {
        assert(all =~= seq![first, second]);
    }
}

/// A setup that nothing interrupts ends, where the ledger tells a fee that fits and its decimals,
/// with the state that holds the user's choices and the ledger's numbers and is locked; the
/// progress of downloading is untouched.
pub proof fn law_setup_sets_what_was_asked(
    runtime: RuntimeView,
    args: SetTargetView,
    fee: nat,
    decimals: u8,
)
    requires
        !runtime.target_ledger_locked,
        fee <= u128::MAX,
    ensures
        ({
            let kept = setup_begin(runtime, args)->CallFee_args;
            let (noted, asked) = after_fee(runtime, kept, Ok(fee));
            let (state, step) = after_decimals(
                noted,
                asked->CallDecimals_args,
                asked->CallDecimals_errors,
                Ok(decimals),
            );
            &&& setup_begin(runtime, args) is CallFee
            &&& asked is CallDecimals
            &&& step == SetTargetStepView::Return(Ok("Target canister, fee and decimals set"@))
            &&& state.target_ledger == args.target_ledger
            &&& state.target_ledger_locked
            &&& state.ledger_fee as int == fee
            &&& state.ledger_decimals == decimals
            &&& state.hours_nano as int == args.hourly_size * 3_600_000_000_000
            &&& state.days_nano as int == args.daily_size * 86_400_000_000_000
            &&& state.ledger_tip_of_chain == runtime.ledger_tip_of_chain
            &&& state.next_block == runtime.next_block
            &&& state.is_upto_date == runtime.is_upto_date
        }),
{
}

/// The counterpart of the arguments has the same fields.
pub proof fn law_set_target_view(args: SetTargetArgs)
    ensures
        args@.target_ledger == args.target_ledger@,
        args@.hourly_size == args.hourly_size,
        args@.daily_size == args.daily_size,
{
}

/// The counterpart of a setup's step says the same.
pub proof fn law_setup_step_view(step: SetTargetStep)
    ensures
        match step {
            SetTargetStep::Trap(message) => step@ == SetTargetStepView::Trap(message@),
            SetTargetStep::CallFee { call, pending } => step@ == (SetTargetStepView::CallFee {
                call: call@,
                args: pending.args@,
            }),
            SetTargetStep::CallDecimals { call, pending } => {
                &&& step@ is CallDecimals
                &&& step@->CallDecimals_call == call@
                &&& step@->CallDecimals_args == pending.args@
                &&& step@->CallDecimals_errors.len() == pending.errors@.len()
                &&& forall|i: int|
                    0 <= i < pending.errors@.len() ==> #[trigger] step@->CallDecimals_errors[i]
                        == pending.errors@[i]@
            },
            SetTargetStep::Return(result) => step@ == SetTargetStepView::Return(
                match result {
                    Ok(text) => Ok(text@),
                    Err(text) => Err(text@),
                },
            ),
        },
{
}

} // verus!
