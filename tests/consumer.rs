use judge::consumer::{step, DeliveryEvent, DeliveryOutcome, DeliveryStage};

fn drive(events: &[DeliveryEvent]) -> (DeliveryStage, usize) {
    let mut stage = DeliveryStage::Decoding;
    let mut acks = 0;
    for e in events {
        let t = step(stage, *e);
        if t.ack {
            acks += 1;
        }
        stage = t.stage;
    }
    (stage, acks)
}

#[test]
fn malformed_payload_is_acked_and_dropped() {
    let (stage, acks) = drive(&[DeliveryEvent::DecodeFailed]);
    assert_eq!(stage, DeliveryStage::Done { outcome: DeliveryOutcome::DecodeFailed });
    assert_eq!(acks, 1);
}

#[test]
fn missing_row_is_acked() {
    let (stage, acks) = drive(&[DeliveryEvent::Decoded { submission_id: 9 }, DeliveryEvent::RowMissing]);
    assert_eq!(stage, DeliveryStage::Done { outcome: DeliveryOutcome::NotFound });
    assert_eq!(acks, 1);
}

#[test]
fn judged_submission_is_written_then_acked() {
    let events = [
        DeliveryEvent::Decoded { submission_id: 9 },
        DeliveryEvent::RowFound,
        DeliveryEvent::StatusSet,
        DeliveryEvent::Judged,
    ];
    let (stage, acks) = drive(&events);
    assert_eq!(stage, DeliveryStage::Recording { submission_id: 9, judged: true });
    assert_eq!(acks, 0);
    let t = step(stage, DeliveryEvent::Written);
    assert_eq!(t.stage, DeliveryStage::Done { outcome: DeliveryOutcome::VerdictWritten });
    assert!(t.ack);
}

#[test]
fn failed_judging_is_recorded_as_judge_error() {
    let events = [
        DeliveryEvent::Decoded { submission_id: 4 },
        DeliveryEvent::RowFound,
        DeliveryEvent::StatusSet,
        DeliveryEvent::JudgeFailed,
        DeliveryEvent::Written,
    ];
    let (stage, acks) = drive(&events);
    assert_eq!(stage, DeliveryStage::Done { outcome: DeliveryOutcome::JudgeError });
    assert_eq!(acks, 1);
}

#[test]
fn done_delivery_is_not_acked_again() {
    let events = [DeliveryEvent::DecodeFailed, DeliveryEvent::Written, DeliveryEvent::RowMissing];
    let (stage, acks) = drive(&events);
    assert_eq!(stage, DeliveryStage::Done { outcome: DeliveryOutcome::DecodeFailed });
    assert_eq!(acks, 1);
}

#[test]
fn unexpected_event_changes_nothing() {
    let t = step(DeliveryStage::Judging { submission_id: 1 }, DeliveryEvent::RowFound);
    assert_eq!(t.stage, DeliveryStage::Judging { submission_id: 1 });
    assert!(!t.ack);
}
