use vstd::prelude::*;

verus! {

/// How the handling of one delivery ended. Each ends with an ack.
#[derive(Clone, Copy, Debug, PartialEq, Eq, Structural)]
pub enum DeliveryOutcome {
    /// The payload was not a submission message; it is dropped.
    DecodeFailed,
    /// No submission row has the message's id (it was withdrawn).
    NotFound,
    /// The verdict was written to the submission row.
    VerdictWritten,
    /// Judging failed and the row was marked as a judge error.
    JudgeError,
}

/// Where the handling of one delivery stands, and so what is to be done next:
/// decode the payload, look the submission up, mark it as being judged,
/// judge it, or write what came of judging.
#[derive(Clone, Copy, Debug, PartialEq, Eq, Structural)]
pub enum DeliveryStage {
    Decoding,
    LookingUp { submission_id: u64 },
    MarkingJudging { submission_id: u64 },
    Judging { submission_id: u64 },
    Recording { submission_id: u64, judged: bool },
    Done { outcome: DeliveryOutcome },
}

/// What came of the work that a stage asked for.
#[derive(Clone, Copy, Debug, PartialEq, Eq, Structural)]
pub enum DeliveryEvent {
    Decoded { submission_id: u64 },
    DecodeFailed,
    RowFound,
    RowMissing,
    StatusSet,
    Judged,
    JudgeFailed,
    Written,
}

/// The next stage, and whether the delivery is to be acknowledged now.
#[derive(Clone, Copy, Debug, PartialEq, Eq, Structural)]
pub struct Transition {
    pub stage: DeliveryStage,
    pub ack: bool,
}

/// `event` is an answer to the work that `stage` asked for.
pub open spec fn answers(stage: DeliveryStage, event: DeliveryEvent) -> bool {
    match stage {
        DeliveryStage::Decoding => event is Decoded || event is DecodeFailed,
        DeliveryStage::LookingUp { .. } => event is RowFound || event is RowMissing,
        DeliveryStage::MarkingJudging { .. } => event is StatusSet,
        DeliveryStage::Judging { .. } => event is Judged || event is JudgeFailed,
        DeliveryStage::Recording { .. } => event is Written,
        DeliveryStage::Done { .. } => false,
    }
}

/// How many stages at most lie between `stage` and the end.
pub open spec fn stages_left(stage: DeliveryStage) -> nat {
    match stage {
        DeliveryStage::Decoding => 5,
        DeliveryStage::LookingUp { .. } => 4,
        DeliveryStage::MarkingJudging { .. } => 3,
        DeliveryStage::Judging { .. } => 2,
        DeliveryStage::Recording { .. } => 1,
        DeliveryStage::Done { .. } => 0,
    }
}

/// The handling of a delivery as a function of what happened.
pub open spec fn next_stage(stage: DeliveryStage, event: DeliveryEvent) -> DeliveryStage {
    match (stage, event) {
        (DeliveryStage::Decoding, DeliveryEvent::Decoded { submission_id }) => DeliveryStage::LookingUp {
            submission_id,
        },
        (DeliveryStage::Decoding, DeliveryEvent::DecodeFailed) => DeliveryStage::Done {
            outcome: DeliveryOutcome::DecodeFailed,
        },
        (DeliveryStage::LookingUp { submission_id }, DeliveryEvent::RowFound) => DeliveryStage::MarkingJudging {
            submission_id,
        },
        (DeliveryStage::LookingUp { .. }, DeliveryEvent::RowMissing) => DeliveryStage::Done {
            outcome: DeliveryOutcome::NotFound,
        },
        (DeliveryStage::MarkingJudging { submission_id }, DeliveryEvent::StatusSet) => DeliveryStage::Judging {
            submission_id,
        },
        (DeliveryStage::Judging { submission_id }, DeliveryEvent::Judged) => DeliveryStage::Recording {
            submission_id,
            judged: true,
        },
        (DeliveryStage::Judging { submission_id }, DeliveryEvent::JudgeFailed) => DeliveryStage::Recording {
            submission_id,
            judged: false,
        },
        (DeliveryStage::Recording { judged, .. }, DeliveryEvent::Written) => DeliveryStage::Done {
            outcome: if judged {
                DeliveryOutcome::VerdictWritten
            } else {
                DeliveryOutcome::JudgeError
            },
        },
        _ => stage,
    }
}

/// Advances the handling of a delivery by one event. An event that does not
/// answer the stage changes nothing. The delivery is acknowledged exactly when
/// its handling ends.
pub fn step(stage: DeliveryStage, event: DeliveryEvent) -> (r: Transition)
    ensures
        r.stage == next_stage(stage, event),
        r.ack == (!(stage is Done) && r.stage is Done),
{
    let next = match (stage, event) {
        (DeliveryStage::Decoding, DeliveryEvent::Decoded { submission_id }) => DeliveryStage::LookingUp {
            submission_id,
        },
        (DeliveryStage::Decoding, DeliveryEvent::DecodeFailed) => DeliveryStage::Done {
            outcome: DeliveryOutcome::DecodeFailed,
        },
        (DeliveryStage::LookingUp { submission_id }, DeliveryEvent::RowFound) => DeliveryStage::MarkingJudging {
            submission_id,
        },
        (DeliveryStage::LookingUp { .. }, DeliveryEvent::RowMissing) => DeliveryStage::Done {
            outcome: DeliveryOutcome::NotFound,
        },
        (DeliveryStage::MarkingJudging { submission_id }, DeliveryEvent::StatusSet) => DeliveryStage::Judging {
            submission_id,
        },
        (DeliveryStage::Judging { submission_id }, DeliveryEvent::Judged) => DeliveryStage::Recording {
            submission_id,
            judged: true,
        },
        (DeliveryStage::Judging { submission_id }, DeliveryEvent::JudgeFailed) => DeliveryStage::Recording {
            submission_id,
            judged: false,
        },
        (DeliveryStage::Recording { judged, .. }, DeliveryEvent::Written) => DeliveryStage::Done {
            outcome: if judged {
                DeliveryOutcome::VerdictWritten
            } else {
                DeliveryOutcome::JudgeError
            },
        },
        _ => stage,
    };
    let was_done = match stage {
        DeliveryStage::Done { .. } => true,
        _ => false,
    };
    let is_done = match next {
        DeliveryStage::Done { .. } => true,
        _ => false,
    };
    Transition { stage: next, ack: !was_done && is_done }
}

/// The stages that a run of events leads through, from `stage` on.
pub open spec fn run_stages(stage: DeliveryStage, events: Seq<DeliveryEvent>) -> DeliveryStage
    decreases events.len(),
{
    if events.len() == 0 {
        stage
    } else {
        run_stages(next_stage(stage, events[0]), events.drop_first())
    }
}

/// How many times a run of events from `stage` acknowledges the delivery.
pub open spec fn acks(stage: DeliveryStage, events: Seq<DeliveryEvent>) -> nat
    decreases events.len(),
{
    if events.len() == 0 {
        0
    } else {
        let next = next_stage(stage, events[0]);
        (if !(stage is Done) && next is Done {
            1nat
        } else {
            0nat
        }) + acks(next, events.drop_first())
    }
}

proof fn lemma_acks(stage: DeliveryStage, events: Seq<DeliveryEvent>)
    ensures
        stage is Done ==> acks(stage, events) == 0 && run_stages(stage, events) == stage,
        !(stage is Done) ==> acks(stage, events) == (if run_stages(stage, events) is Done {
            1nat
        } else {
            0nat
        }),
    decreases events.len(),
{
    if events.len() > 0 {
        lemma_acks(next_stage(stage, events[0]), events.drop_first());
    }
}

/// Whatever happens, a delivery is acknowledged at most once, and exactly
/// once when its handling has ended; it then has one outcome of four and
/// stays there.
pub proof fn law_ack_once(events: Seq<DeliveryEvent>)
    ensures
        acks(DeliveryStage::Decoding, events) <= 1,
        acks(DeliveryStage::Decoding, events) == 1 <==> run_stages(DeliveryStage::Decoding, events) is Done,
        forall|more: Seq<DeliveryEvent>|
            run_stages(DeliveryStage::Decoding, events) is Done ==> #[trigger] run_stages(
                run_stages(DeliveryStage::Decoding, events),
                more,
            ) == run_stages(DeliveryStage::Decoding, events),
{
    lemma_acks(DeliveryStage::Decoding, events);
    assert forall|more: Seq<DeliveryEvent>|
        run_stages(DeliveryStage::Decoding, events) is Done implies #[trigger] run_stages(
        run_stages(DeliveryStage::Decoding, events),
        more,
    ) == run_stages(DeliveryStage::Decoding, events) by {
        lemma_acks(run_stages(DeliveryStage::Decoding, events), more);
    }
}

/// Every answer moves the handling forward, so a delivery whose work is
/// answered each time ends, after at most five answers.
pub proof fn law_answers_progress(stage: DeliveryStage, event: DeliveryEvent)
    requires
        answers(stage, event),
    ensures
        stages_left(next_stage(stage, event)) < stages_left(stage),
{
}

/// The four ways a delivery can end, and what leads to each: a payload that
/// does not decode, a submission that is not there, a verdict written, or a
/// failed judging recorded as a judge error.
pub proof fn law_outcomes(stage: DeliveryStage, event: DeliveryEvent)
    requires
        !(stage is Done),
        next_stage(stage, event) is Done,
    ensures
        next_stage(stage, event)->outcome == DeliveryOutcome::DecodeFailed <==> (stage is Decoding
            && event is DecodeFailed),
        next_stage(stage, event)->outcome == DeliveryOutcome::NotFound <==> (stage is LookingUp
            && event is RowMissing),
        next_stage(stage, event)->outcome == DeliveryOutcome::VerdictWritten <==> (stage
            == DeliveryStage::Recording { submission_id: stage->Recording_submission_id, judged: true }
            && event is Written),
        next_stage(stage, event)->outcome == DeliveryOutcome::JudgeError <==> (stage
            == DeliveryStage::Recording { submission_id: stage->Recording_submission_id, judged: false }
            && event is Written),
{
}

} // verus!
