//! Options and what callers see of the engine.

use std::time::Duration;

use strom_storage::domain::bounds::WAL_ENCODED_BYTES_MAX;
use strom_storage::domain::coordinate::{BatchId, SealGeneration};
use strom_storage::domain::table::AttemptId;
use strom_storage::engine::admission::AdmissionRefusal;
use strom_storage::engine::bootstrap_exit::BootstrapExit;
use strom_storage::engine::checkpoint::CheckpointTicket;
use strom_storage::engine::completion::CheckpointCompletion;
use strom_storage::engine::options::{FlushPressure, Options, OptionsError};
use strom_storage::engine::service::{
    close_outcome, command_outcome, open_error, stream_error, stream_outcome, CloseOutcome,
    CommandError, OpenError, StreamError, WriterExit,
};
use strom_storage::engine::store::{TypedStoreError, WalEstablishment};
use strom_storage::engine::writer_effects::{
    settle_checkpoint, settle_wal, EffectKey, TaskFailure,
};
use strom_storage::engine::writer_machine::{joined_event, WriterEvent};

#[test]
fn flush_byte_options_accept_the_closed_valid_interval() {
    assert!(
        Options::default().with_flush_buffer_bytes(1).is_ok(),
        "one byte is the smallest valid soft budget"
    );
    assert!(
        Options::default().with_flush_buffer_bytes(WAL_ENCODED_BYTES_MAX).is_ok(),
        "the hard WAL object bound is a valid soft budget"
    );
    assert_eq!(
        Err(OptionsError::FlushBufferBytesZero),
        Options::default().with_flush_buffer_bytes(0)
    );
    assert_eq!(
        Err(OptionsError::FlushBufferBytesOverMax { bytes: WAL_ENCODED_BYTES_MAX + 1 }),
        Options::default().with_flush_buffer_bytes(WAL_ENCODED_BYTES_MAX + 1)
    );
}

#[test]
fn default_options_flush_every_fixed_interval() {
    let options = Options::default();
    assert_eq!(Duration::from_millis(250), options.flush_interval_min());
    assert_eq!(WAL_ENCODED_BYTES_MAX, options.flush_buffer_bytes());
    let longer = options.with_min_flush_interval(Duration::from_secs(9));
    assert_eq!(Duration::from_secs(9), longer.flush_interval_min());
    assert_eq!(options.flush_buffer_bytes(), longer.flush_buffer_bytes());
}

fn generation(raw: u64) -> SealGeneration {
    SealGeneration::try_from(raw).unwrap()
}

fn batch(raw: u64) -> BatchId {
    BatchId::try_from(raw).unwrap()
}

fn ticket() -> CheckpointTicket {
    CheckpointTicket {
        source: generation(2),
        cut: batch(9),
        attempt: AttemptId::new(generation(2), 4),
    }
}

#[test]
fn failures_to_open_carry_the_exit_over() {
    let exits = [
        (
            BootstrapExit::Retryable { detail: "later".to_string() },
            "open should be retried: later",
            "bootstrap should be retried: later",
        ),
        (
            BootstrapExit::Fenced { observed: generation(7) },
            "another writer took the partition at Seal generation SealGeneration(7)",
            "bootstrap claim was fenced by Seal generation SealGeneration(7)",
        ),
        (
            BootstrapExit::Contradiction { detail: "bytes".to_string() },
            "durable state contradicts the storage model: bytes",
            "bootstrap found a durable contradiction: bytes",
        ),
    ];
    for (exit, opened, booted) in exits {
        assert_eq!(booted, exit.to_string());
        assert_eq!(opened, open_error(exit).to_string());
    }
    assert_eq!(
        OpenError::Fenced { observed: generation(7) },
        open_error(BootstrapExit::Fenced { observed: generation(7) })
    );
}

#[test]
fn refusals_reach_callers_as_their_own_errors() {
    let refusals = [
        (
            AdmissionRefusal::PathOccupied,
            StreamError::Occupied,
            "stream path is already occupied",
            "command was refused: stream path is already occupied",
        ),
        (
            AdmissionRefusal::PathCapacityExhausted,
            StreamError::CapacityExhausted,
            "partition stream capacity is exhausted",
            "command was refused: partition path capacity is exhausted",
        ),
        (
            AdmissionRefusal::PathNotLive,
            StreamError::NotLive,
            "stream path is not live",
            "command was refused: stream path is not live",
        ),
        (
            AdmissionRefusal::Overloaded,
            StreamError::Overloaded,
            "partition is at a bounded capacity limit; retry later",
            "command was refused: partition writer is at a bounded capacity limit",
        ),
    ];
    for (refusal, error, message, command_message) in refusals {
        assert_eq!(error, stream_error(refusal));
        assert_eq!(message, error.to_string());
        assert_eq!(Err(error), stream_outcome::<u8>(Some(Err(refusal))));
        let command = command_outcome::<u8>(Some(Err(refusal))).unwrap_err();
        assert_eq!(CommandError::Refused(refusal), command);
        assert_eq!(command_message, command.to_string());
    }
    assert_eq!(Ok(5u8), stream_outcome(Some(Ok(5u8))));
    assert_eq!(Err(StreamError::Indeterminate), stream_outcome::<u8>(None));
    assert_eq!(Ok(5u8), command_outcome(Some(Ok(5u8))));
    assert_eq!(Err(CommandError::Indeterminate), command_outcome::<u8>(None));
    assert_eq!("partition is no longer serving", StreamError::Unavailable.to_string());
    assert_eq!(
        "operation outcome is indeterminate; reopen and inspect",
        StreamError::Indeterminate.to_string()
    );
    assert_eq!("partition writer is unavailable", CommandError::Unavailable.to_string());
    assert_eq!(
        "command outcome is indeterminate; recover from durable evidence",
        CommandError::Indeterminate.to_string()
    );
}

#[test]
fn writer_exits_reach_callers_without_coordinates() {
    let detail = || "said".to_string();
    assert_eq!(CloseOutcome::Shutdown, close_outcome(WriterExit::Shutdown));
    assert_eq!(CloseOutcome::Fenced, close_outcome(WriterExit::Fenced { batch: batch(3) }));
    assert_eq!(
        CloseOutcome::Poisoned { detail: detail() },
        close_outcome(WriterExit::Poisoned { batch: batch(3), detail: detail() })
    );
    assert_eq!(
        CloseOutcome::Contradiction { detail: detail() },
        close_outcome(WriterExit::Contradiction { batch: batch(3), detail: detail() })
    );
}

#[test]
fn options_spell_their_refusals() {
    assert_eq!(
        "flush buffer byte budget must be nonzero",
        OptionsError::FlushBufferBytesZero.to_string()
    );
    assert_eq!(
        "flush buffer byte budget 4194305 exceeds the 4194304-byte WAL bound",
        OptionsError::FlushBufferBytesOverMax { bytes: 4194305 }.to_string()
    );
}

#[test]
fn cancelled_preparation_join_retains_its_exact_key() {
    let key = EffectKey::CheckpointPreparation { ticket: ticket() };
    assert_eq!(
        Ok(WriterEvent::CheckpointCancelled { ticket: ticket() }),
        joined_event(key, Err(TaskFailure::Cancelled))
    );
}

#[test]
fn successful_preparation_completion_survives_an_abort_lost_race() {
    let key = EffectKey::CheckpointPreparation { ticket: ticket() };
    let finished = || WriterEvent::CheckpointFinished {
        ticket: ticket(),
        completion: CheckpointCompletion::Abandoned,
    };
    assert_eq!(Ok(finished()), joined_event(key, Ok(finished())));
}

#[test]
fn a_failed_effect_comes_back_as_its_own_key() {
    for key in [
        EffectKey::Wal { batch: batch(2) },
        EffectKey::SealPublication { ticket: ticket() },
        EffectKey::Collection { cut: batch(9) },
    ] {
        assert_eq!(Err(key), joined_event(key, Err(TaskFailure::Cancelled)));
        assert_eq!(Err(key), joined_event(key, Err(TaskFailure::Panicked)));
    }
    let preparation = EffectKey::CheckpointPreparation { ticket: ticket() };
    assert_eq!(
        Err(preparation),
        joined_event(preparation, Err(TaskFailure::Panicked)),
        "only a cancellation abandons a preparation"
    );
}

#[test]
fn only_a_durable_run_lets_the_writer_go_on() {
    let detail = || "said".to_string();
    let poisoned = |detail| Err(WriterExit::Poisoned { batch: batch(4), detail });
    assert_eq!(Ok(()), settle_wal(batch(4), Ok(WalEstablishment::Durable)));
    assert_eq!(
        Err(WriterExit::Fenced { batch: batch(4) }),
        settle_wal(batch(4), Ok(WalEstablishment::Occupied))
    );
    assert_eq!(
        poisoned("WAL create is unresolved".to_string()),
        settle_wal(batch(4), Ok(WalEstablishment::UnresolvedAbsent))
    );
    assert_eq!(
        poisoned(detail()),
        settle_wal(batch(4), Err(TypedStoreError::Retryable { detail: detail() }))
    );
    assert_eq!(
        poisoned(detail()),
        settle_wal(batch(4), Err(TypedStoreError::Rejected { detail: detail() }))
    );
    assert_eq!(
        Err(WriterExit::Contradiction { batch: batch(4), detail: detail() }),
        settle_wal(batch(4), Err(TypedStoreError::Contradiction { detail: detail() }))
    );
}

#[test]
fn a_checkpoint_ends_the_writer_only_where_authority_is_in_doubt() {
    let detail = || "said".to_string();
    assert_eq!(Ok(None), settle_checkpoint(batch(9), CheckpointCompletion::Abandoned));
    assert_eq!(
        Err(WriterExit::Fenced { batch: batch(9) }),
        settle_checkpoint(batch(9), CheckpointCompletion::Fenced)
    );
    assert_eq!(
        Err(WriterExit::Poisoned { batch: batch(9), detail: detail() }),
        settle_checkpoint(batch(9), CheckpointCompletion::Poisoned { detail: detail() })
    );
    assert_eq!(
        Err(WriterExit::Contradiction { batch: batch(9), detail: detail() }),
        settle_checkpoint(batch(9), CheckpointCompletion::Contradiction { detail: detail() })
    );
}

#[test]
fn pressure_flushes_before_the_interval() {
    let options = Options::default().with_flush_buffer_bytes(100).unwrap();
    let calm = FlushPressure {
        interval_elapsed: false,
        buffered_bytes: 99,
        at_capacity: false,
        draining: false,
    };
    assert!(!options.is_flush_due(calm));
    assert!(options.is_flush_due(FlushPressure { interval_elapsed: true, ..calm }));
    assert!(options.is_flush_due(FlushPressure { buffered_bytes: 100, ..calm }));
    assert!(options.is_flush_due(FlushPressure { at_capacity: true, ..calm }));
    assert!(options.is_flush_due(FlushPressure { draining: true, ..calm }));
}
