use freemkv_engine::handoff::{
    after_first_try, after_last_try, after_wait, next_nap, Handoff, Probe, SendStall,
};

#[test]
fn an_item_that_fits_is_handed_over_whatever_was_asked() {
    assert_eq!(after_first_try(Probe::Sent), Handoff::Done);
    assert_eq!(after_first_try(Probe::Full), Handoff::Wait);
    assert_eq!(after_first_try(Probe::Disconnected), Handoff::Wait);
}

#[test]
fn a_halt_comes_before_a_dead_consumer() {
    assert_eq!(after_wait(true, true), Handoff::Done);
    assert_eq!(after_wait(false, true), Handoff::Failed(SendStall::Halted));
    assert_eq!(after_wait(false, false), Handoff::TryAgain);
}

#[test]
fn the_last_try_tells_dead_from_slow() {
    assert_eq!(after_last_try(Probe::Sent), Handoff::Done);
    assert_eq!(after_last_try(Probe::Disconnected), Handoff::Failed(SendStall::ConsumerGone));
    assert_eq!(after_last_try(Probe::Full), Handoff::Failed(SendStall::Stalled));
}

#[test]
fn a_pause_is_slept_in_short_naps() {
    let mut elapsed = 0;
    let mut naps = 0;
    while let Some(ms) = next_nap(1050, elapsed, false) {
        assert!(ms > 0 && ms <= 100);
        elapsed += ms;
        naps += 1;
    }
    assert_eq!(elapsed, 1050);
    assert_eq!(naps, 11);
    assert_eq!(next_nap(1000, 10, true), None);
    assert_eq!(next_nap(0, 0, false), None);
}
