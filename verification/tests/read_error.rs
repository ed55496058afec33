use freemkv_engine::read_error::{
    handle_read_error, is_wedge_transition, ReadAction, ReadCtx, ReadFailure, SenseFamily,
    BRIDGE_DEGRADATION_MAX_RETRIES, BRIDGE_DEGRADATION_PAUSE_SECS, NOT_READY_MAX_RETRIES,
    NOT_READY_PAUSE_SECS, SENSE_KEY_HARDWARE_ERROR, SENSE_KEY_ILLEGAL_REQUEST,
    SENSE_KEY_MEDIUM_ERROR, SENSE_KEY_NOT_READY, SENSE_KEY_RECOVERED_ERROR,
    SENSE_KEY_UNIT_ATTENTION, WEDGE_ABORT_THRESHOLD, ZONE_ENTRY_COOLDOWN_SECS,
};

fn check_condition(sense_key: u8, family: SenseFamily) -> ReadFailure {
    ReadFailure {
        transport_failure: false,
        unit_attention: sense_key == SENSE_KEY_UNIT_ATTENTION,
        bridge_degradation: false,
        sense_key: Some(sense_key),
        family,
    }
}

fn medium_err() -> ReadFailure {
    check_condition(SENSE_KEY_MEDIUM_ERROR, SenseFamily::Medium)
}

fn hardware_err() -> ReadFailure {
    check_condition(SENSE_KEY_HARDWARE_ERROR, SenseFamily::Hardware)
}

fn illegal_request_err() -> ReadFailure {
    check_condition(SENSE_KEY_ILLEGAL_REQUEST, SenseFamily::IllegalRequest)
}

fn recovered_err() -> ReadFailure {
    check_condition(SENSE_KEY_RECOVERED_ERROR, SenseFamily::Other)
}

fn not_ready_err() -> ReadFailure {
    check_condition(SENSE_KEY_NOT_READY, SenseFamily::NotReady)
}

fn not_ready_04_3e_err() -> ReadFailure {
    check_condition(SENSE_KEY_NOT_READY, SenseFamily::NotReady)
}

fn unit_attention_err() -> ReadFailure {
    check_condition(SENSE_KEY_UNIT_ATTENTION, SenseFamily::Other)
}

fn transport_failure_err() -> ReadFailure {
    ReadFailure {
        transport_failure: true,
        unit_attention: false,
        bridge_degradation: false,
        sense_key: None,
        family: SenseFamily::Other,
    }
}

fn bridge_degradation_err() -> ReadFailure {
    ReadFailure {
        transport_failure: false,
        unit_attention: false,
        bridge_degradation: true,
        sense_key: None,
        family: SenseFamily::Other,
    }
}

#[test]
fn recovered_error_skips_block_not_jump_pass_1() {
    let mut ctx = ReadCtx::for_sweep(32);
    let action = handle_read_error(&recovered_err(), &mut ctx);
    assert!(
        matches!(action, ReadAction::SkipBlock { .. }),
        "recovered error must SkipBlock, not JumpAhead; got {action:?}"
    );
    assert_eq!(ctx.marginal_recovered, 1);
    assert_eq!(ctx.jump_multiplier, 1);
    assert_eq!(ctx.jumps_taken, 0);
}

#[test]
fn recovered_error_does_not_consume_zone_entry() {
    let mut ctx = ReadCtx::for_sweep(32);
    handle_read_error(&recovered_err(), &mut ctx);
    assert!(
        !ctx.in_damage_zone,
        "recovered read is not damage-zone signal"
    );
    assert_eq!(ctx.zones_entered, 0);
    handle_read_error(&hardware_err(), &mut ctx);
    assert!(ctx.in_damage_zone);
    assert_eq!(ctx.zones_entered, 1, "hard error registers the zone entry");
}

#[test]
fn a_not_ready_retry_does_not_consume_the_zone_entry() {
    let mut ctx = ReadCtx::for_sweep(32);
    for _ in 0..NOT_READY_MAX_RETRIES {
        let a = handle_read_error(&not_ready_err(), &mut ctx);
        assert!(matches!(a, ReadAction::Retry { .. }), "got {a:?}");
    }
    assert!(
        !ctx.in_damage_zone,
        "a transient NOT_READY retry is not evidence of a damage zone"
    );
    assert_eq!(
        ctx.zones_entered, 0,
        "the zone counter must not tick for retries that never reach the cooldown"
    );

    let a = handle_read_error(&hardware_err(), &mut ctx);
    assert!(ctx.in_damage_zone);
    assert_eq!(ctx.zones_entered, 1);
    let pause = match a {
        ReadAction::JumpAhead { pause_secs, .. } => pause_secs,
        ReadAction::SkipBlock { pause_secs } => pause_secs,
        ReadAction::Retry { pause_secs } => pause_secs,
        other => panic!("expected a paused action, got {other:?}"),
    };
    assert!(
        pause >= 30,
        "the real zone entry must get the 30 s wedge cooldown, got {pause}s \
         — the NOT_READY retries had eaten the transition"
    );
}

#[test]
fn a_transport_failure_does_not_consume_the_zone_entry() {
    let mut ctx = ReadCtx::for_sweep(32);
    assert!(matches!(
        handle_read_error(&transport_failure_err(), &mut ctx),
        ReadAction::AbortPass
    ));
    assert!(!ctx.in_damage_zone);
    assert_eq!(ctx.zones_entered, 0);
}

#[test]
fn recovered_error_skips_block_pass_n_too() {
    let mut ctx = ReadCtx::for_patch(1);
    let action = handle_read_error(&recovered_err(), &mut ctx);
    assert!(
        matches!(action, ReadAction::SkipBlock { .. }),
        "got {action:?}"
    );
    assert_eq!(ctx.marginal_recovered, 1);
}

#[test]
fn many_recovered_errors_never_jump() {
    let mut ctx = ReadCtx::for_sweep(32);
    for _ in 0..40 {
        let a = handle_read_error(&recovered_err(), &mut ctx);
        assert!(matches!(a, ReadAction::SkipBlock { .. }), "got {a:?}");
    }
    assert_eq!(ctx.jumps_taken, 0, "recovered errors never jump");
    assert_eq!(ctx.marginal_recovered, 40);
}

#[test]
fn pass_1_marginal_jumps_immediately() {
    let mut ctx = ReadCtx::for_sweep(32);
    let action = handle_read_error(&medium_err(), &mut ctx);
    match action {
        ReadAction::JumpAhead { .. } => {}
        other => panic!("expected JumpAhead on first Pass 1 marginal error, got {other:?}"),
    }
}

#[test]
fn medium_error_with_batch_1_skips() {
    let mut ctx = ReadCtx::for_patch(1);
    let action = handle_read_error(&medium_err(), &mut ctx);
    match action {
        ReadAction::SkipBlock { pause_secs } => assert!(pause_secs >= 1),
        other => panic!("expected SkipBlock, got {other:?}"),
    }
}

#[test]
fn pass_1_jumps_immediately_on_first_outer_failure() {
    let mut ctx = ReadCtx::for_sweep(32);
    let a = handle_read_error(&medium_err(), &mut ctx);
    assert!(
        matches!(a, ReadAction::JumpAhead { .. }),
        "expected JumpAhead on first outer failure (fast_jump_threshold=1), got {a:?}"
    );
}

#[test]
fn pass_n_does_not_fast_jump() {
    let mut ctx = ReadCtx::for_patch(32);
    assert_eq!(
        ctx.fast_jump_threshold,
        u64::MAX,
        "Pass N's fast-entry trigger must be disabled outright, not merely \
         set high"
    );
    ctx.damage_threshold_pct = 101;
    for i in 1..=256 {
        let a = handle_read_error(&medium_err(), &mut ctx);
        assert!(
            !matches!(a, ReadAction::JumpAhead { .. }),
            "Pass N must not fast-jump, and did on failure {i}: {a:?}"
        );
    }
    assert_eq!(ctx.jumps_taken, 0, "no jump of any kind should have fired");
    assert_eq!(
        ctx.consecutive_outer_failures, 256,
        "the outer-failure counter must keep climbing — a reset would mean \
         a jump fired and the assertions above were vacuous"
    );
}

#[test]
fn outer_success_resets_consecutive_outer_failures() {
    let mut ctx = ReadCtx::for_patch(1);
    ctx.damage_threshold_pct = 101; // no window jump; nothing else resets it
    for _ in 0..3 {
        handle_read_error(&medium_err(), &mut ctx);
    }
    assert_eq!(
        ctx.consecutive_outer_failures, 3,
        "fixture invalid: the failures must have accumulated, or the reset \
         below is asserted against a counter that was already 0"
    );
    ctx.on_success();
    assert_eq!(
        ctx.consecutive_outer_failures, 0,
        "a successful read ends the outer-failure streak"
    );
}

#[test]
fn pass_1_hardware_error_jumps_ahead_not_aborts() {
    let mut ctx = ReadCtx::for_sweep(32);
    let action = handle_read_error(&hardware_err(), &mut ctx);
    match action {
        ReadAction::JumpAhead {
            sectors,
            pause_secs,
        } => {
            assert_eq!(sectors, 1_073_741_824 / 2048);
            assert_eq!(pause_secs, 30);
        }
        other => panic!("expected JumpAhead, got {other:?}"),
    }
    assert_eq!(ctx.wedge_count, 1);
}

#[test]
fn pass_1_hardware_error_aborts_after_threshold() {
    let mut ctx = ReadCtx::for_sweep(32);
    for i in 0..WEDGE_ABORT_THRESHOLD - 1 {
        let action = handle_read_error(&hardware_err(), &mut ctx);
        assert!(
            matches!(action, ReadAction::JumpAhead { .. }),
            "iter {i}: expected JumpAhead, got {action:?}"
        );
    }
    let action = handle_read_error(&hardware_err(), &mut ctx);
    assert_eq!(action, ReadAction::AbortPass);
}

#[test]
fn pass_1_good_read_resets_wedge_count() {
    let mut ctx = ReadCtx::for_sweep(32);
    for _ in 0..(WEDGE_ABORT_THRESHOLD - 1) {
        handle_read_error(&hardware_err(), &mut ctx);
    }
    assert_eq!(ctx.wedge_count, WEDGE_ABORT_THRESHOLD - 1);
    ctx.on_success();
    assert_eq!(ctx.wedge_count, 0);
    let action = handle_read_error(&hardware_err(), &mut ctx);
    assert!(matches!(action, ReadAction::JumpAhead { .. }));
}

#[test]
fn pass_n_hardware_error_also_skips_not_aborts() {
    let mut ctx = ReadCtx::for_patch(1);
    let action = handle_read_error(&hardware_err(), &mut ctx);
    match action {
        ReadAction::JumpAhead {
            sectors,
            pause_secs,
        } => {
            assert_eq!(sectors, 64);
            assert_eq!(pause_secs, 30);
        }
        other => panic!("expected JumpAhead, got {other:?}"),
    }
    assert_eq!(ctx.wedge_count, 1);
}

#[test]
fn pass_n_hardware_error_aborts_after_threshold() {
    let mut ctx = ReadCtx::for_patch(1);
    for _ in 0..WEDGE_ABORT_THRESHOLD - 1 {
        let action = handle_read_error(&hardware_err(), &mut ctx);
        assert!(matches!(action, ReadAction::JumpAhead { .. }));
    }
    let action = handle_read_error(&hardware_err(), &mut ctx);
    assert_eq!(action, ReadAction::AbortPass);
}

#[test]
fn pass_1_illegal_request_also_routes_to_wedge_skip() {
    let mut ctx = ReadCtx::for_sweep(32);
    let action = handle_read_error(&illegal_request_err(), &mut ctx);
    assert!(matches!(action, ReadAction::JumpAhead { .. }));
}

#[test]
fn long_failure_streak_extends_pause_on_pass_n() {
    let mut ctx = ReadCtx::for_patch(1);
    for _ in 0..15 {
        handle_read_error(&medium_err(), &mut ctx);
    }
    let final_action = handle_read_error(&medium_err(), &mut ctx);
    match final_action {
        ReadAction::SkipBlock { pause_secs } => assert_eq!(pause_secs, 5),
        ReadAction::JumpAhead { pause_secs, .. } => assert_eq!(pause_secs, 5 + 2),
        other => panic!("expected long-pause action, got {other:?}"),
    }
    assert!(
        ctx.long_pause_escalations > 0,
        "a 16-failure streak must have taken the escalation branch"
    );
}

#[test]
fn pass_1_zone_entry_uses_long_cooldown() {
    let mut ctx = ReadCtx::for_sweep(32);
    let action = handle_read_error(&medium_err(), &mut ctx);
    match action {
        ReadAction::JumpAhead { pause_secs, .. } => {
            assert_eq!(
                pause_secs, 32,
                "first-error pause is the 30 s zone-entry cooldown plus the \
                 2 s post-jump extra"
            );
        }
        other => panic!("expected JumpAhead on first Pass 1 error, got {other:?}"),
    }
    assert_eq!(
        ZONE_ENTRY_COOLDOWN_SECS, 30,
        "the zone-entry cooldown is 30 s — the value the 2026-05-11 wedge \
         incident was tuned against"
    );
}

#[test]
fn pass_1_subsequent_in_zone_errors_skip_long_cooldown() {
    let mut ctx = ReadCtx::for_sweep(32);
    let first = handle_read_error(&medium_err(), &mut ctx);
    match first {
        ReadAction::JumpAhead { pause_secs, .. } => assert_eq!(pause_secs, 32),
        other => panic!("expected JumpAhead on first error, got {other:?}"),
    }
    assert!(ctx.in_damage_zone);
    let second = handle_read_error(&medium_err(), &mut ctx);
    let pause = match second {
        ReadAction::JumpAhead { pause_secs, .. } => pause_secs,
        ReadAction::SkipBlock { pause_secs } => pause_secs,
        other => panic!("expected pausing action, got {other:?}"),
    };
    assert_ne!(
        pause, 32,
        "subsequent in-zone error must not pay the 30 s zone-entry cooldown"
    );
    assert!(
        pause <= 7,
        "subsequent in-zone pause should be the standard 5 s fail pause \
         (+2 s post-jump), got {pause}"
    );
}

#[test]
fn pass_n_pauses_uniformly_on_failed_read() {
    let mut ctx = ReadCtx::for_patch(1);
    let action = handle_read_error(&medium_err(), &mut ctx);
    match action {
        ReadAction::SkipBlock { pause_secs } => assert_eq!(pause_secs, 5),
        ReadAction::JumpAhead { pause_secs, .. } => assert_eq!(pause_secs, 5 + 2),
        other => panic!("expected pausing action, got {other:?}"),
    }
}

#[test]
fn damage_window_fills_then_jumps() {
    let mut ctx = ReadCtx::for_sweep(1);
    ctx.fast_jump_threshold = u64::MAX;
    ctx.damage_window_max = 4;
    ctx.damage_threshold_pct = 50;

    for i in 1..=3 {
        let a = handle_read_error(&medium_err(), &mut ctx);
        assert!(
            matches!(a, ReadAction::SkipBlock { .. }),
            "read {i} filled only {}/4 of the window and must skip in \
             place, got {a:?}",
            ctx.damage_window.len()
        );
    }

    let a = handle_read_error(&medium_err(), &mut ctx);
    assert!(
        matches!(a, ReadAction::JumpAhead { .. }),
        "a full window at 100% bad against a 50% threshold must jump, \
         got {a:?}"
    );
}

#[test]
fn an_unreachable_damage_threshold_never_jumps() {
    let mut ctx = ReadCtx::for_sweep(1);
    ctx.fast_jump_threshold = u64::MAX;
    ctx.damage_window_max = 4;
    ctx.damage_threshold_pct = 101; // unsatisfiable: bad_pct maxes at 100
    for i in 1..=12 {
        let a = handle_read_error(&medium_err(), &mut ctx);
        assert!(
            matches!(a, ReadAction::SkipBlock { .. }),
            "read {i}: no density can reach 101%, so the window trigger \
             must stay silent, got {a:?}"
        );
    }
}

#[test]
fn jump_multiplier_resets_after_damage_zone_exit() {
    let mut ctx = ReadCtx::for_sweep(32);
    for _ in 0..4 {
        handle_read_error(&medium_err(), &mut ctx);
    }
    assert!(
        ctx.jump_multiplier > 1,
        "expected the multiplier to inflate inside a damage zone"
    );
    for _ in 0..ctx.damage_window_max {
        ctx.on_success();
    }
    assert!(!ctx.in_damage_zone, "zone should have exited");
    assert_eq!(
        ctx.jump_multiplier, 1,
        "jump_multiplier must reset to 1 on zone exit"
    );
}

#[test]
fn bridge_degradation_count_resets_on_success() {
    let mut ctx = ReadCtx::for_patch(1);
    ctx.bridge_degradation_count = BRIDGE_DEGRADATION_MAX_RETRIES;
    ctx.on_success();
    assert_eq!(ctx.bridge_degradation_count, 0);
}

#[test]
fn wedge_abort_threshold_is_reachable() {
    let mut ctx = ReadCtx::for_patch(32);
    let mut aborted = false;
    for _ in 0..WEDGE_ABORT_THRESHOLD {
        if matches!(
            handle_read_error(&hardware_err(), &mut ctx),
            ReadAction::AbortPass
        ) {
            aborted = true;
            break;
        }
    }
    assert!(
        aborted,
        "a permanently wedged drive must reach the abort threshold"
    );
}

#[test]
fn on_success_resets_failure_counters_and_pushes_window() {
    let mut ctx = ReadCtx::for_sweep(32);
    for _ in 0..3 {
        handle_read_error(&medium_err(), &mut ctx);
    }
    assert!(ctx.consecutive_failures > 0);
    ctx.on_success();
    assert_eq!(ctx.consecutive_good, 1);
    assert_eq!(ctx.consecutive_failures, 0);
    assert!(*ctx.damage_window.last().unwrap());
}






#[test]
fn not_ready_retries_capped_at_three_then_falls_through() {
    let mut ctx = ReadCtx::for_patch(1);
    for i in 0..NOT_READY_MAX_RETRIES {
        let a = handle_read_error(&not_ready_err(), &mut ctx);
        assert!(
            matches!(a, ReadAction::Retry { .. }),
            "NOT_READY attempt {i} should Retry, got {a:?}"
        );
    }
    let a = handle_read_error(&not_ready_err(), &mut ctx);
    assert!(
        !matches!(a, ReadAction::Retry { .. }),
        "NOT_READY past the retry cap must fall through, got {a:?}"
    );
}

#[test]
fn transport_failure_aborts_on_both_passes() {
    let mut ctx = ReadCtx::for_patch(32);
    assert_eq!(
        handle_read_error(&transport_failure_err(), &mut ctx),
        ReadAction::AbortPass
    );
    let mut ctx1 = ReadCtx::for_sweep(32);
    assert_eq!(
        handle_read_error(&transport_failure_err(), &mut ctx1),
        ReadAction::AbortPass
    );
}

#[test]
fn unit_attention_aborts_the_pass_not_treated_as_a_bad_sector() {
    let mut ctx = ReadCtx::for_sweep(32);
    assert_eq!(
        handle_read_error(&unit_attention_err(), &mut ctx),
        ReadAction::AbortPass
    );
    let mut ctx_n = ReadCtx::for_patch(32);
    assert_eq!(
        handle_read_error(&unit_attention_err(), &mut ctx_n),
        ReadAction::AbortPass
    );
}

#[test]
fn bridge_degradation_retries_to_budget_then_falls_through() {
    let mut ctx = ReadCtx::for_patch(1);
    for i in 0..BRIDGE_DEGRADATION_MAX_RETRIES {
        let a = handle_read_error(&bridge_degradation_err(), &mut ctx);
        match a {
            ReadAction::Retry { pause_secs } => {
                assert_eq!(
                    pause_secs, BRIDGE_DEGRADATION_PAUSE_SECS,
                    "bridge retry {i} should use the bridge cooldown"
                );
            }
            other => panic!("bridge degradation attempt {i} should Retry, got {other:?}"),
        }
    }
    let a = handle_read_error(&bridge_degradation_err(), &mut ctx);
    assert!(
        !matches!(a, ReadAction::Retry { .. }),
        "bridge degradation past the retry budget must fall through, got {a:?}"
    );
}


#[test]
fn not_ready_04_3e_does_not_take_bridge_branch() {
    let err = not_ready_04_3e_err();
    assert!(
        !err.bridge_degradation,
        "04/3E arrives as CHECK CONDITION (0x02); it is not bridge degradation"
    );

    let mut ctx = ReadCtx::for_patch(1);
    match handle_read_error(&err, &mut ctx) {
        ReadAction::Retry { pause_secs } => {
            assert_eq!(
                pause_secs, NOT_READY_PAUSE_SECS,
                "04/3E must use the generic NOT_READY pause, not the bridge cooldown"
            );
            assert_ne!(
                pause_secs, BRIDGE_DEGRADATION_PAUSE_SECS,
                "04/3E must not take the bridge-degradation branch"
            );
            assert_eq!(ctx.not_ready_retries, 1);
            assert_eq!(ctx.bridge_degradation_count, 0);
        }
        other => panic!("04/3E should Retry via the NOT_READY path, got {other:?}"),
    }
}

#[test]
fn jump_multiplier_caps_and_jump_distance_stays_bounded() {
    const MAX_JUMP_MULTIPLIER: u64 = 64;
    let batch: u16 = 32;
    let mut ctx = ReadCtx::for_sweep(batch);
    ctx.damage_window_max = 2;
    ctx.damage_threshold_pct = 0;
    let mut last_jump_sectors = 0u64;
    for _ in 0..40 {
        if let ReadAction::JumpAhead { sectors, .. } =
            handle_read_error(&medium_err(), &mut ctx)
        {
            last_jump_sectors = sectors;
        }
        assert!(
            ctx.jump_multiplier <= MAX_JUMP_MULTIPLIER,
            "jump_multiplier {} exceeded the cap {}",
            ctx.jump_multiplier,
            MAX_JUMP_MULTIPLIER
        );
    }
    assert_eq!(
        last_jump_sectors, 2_097_152,
        "the saturated jump is 4 GiB (2_097_152 sectors at batch=32)"
    );
}

#[test]
fn the_first_damage_jump_clears_exactly_64_mib() {
    let mut ctx = ReadCtx::for_sweep(32);
    assert_eq!(ctx.jump_multiplier, 1, "the first jump is un-multiplied");
    match handle_read_error(&medium_err(), &mut ctx) {
        ReadAction::JumpAhead { sectors, .. } => {
            assert_eq!(
                sectors, 32_768,
                "the first jump at batch=32 clears 64 MiB — the BU40N's \
                 damage clusters are 100+ MB wide and a shorter jump lands \
                 back inside the cluster"
            );
            assert_eq!(sectors * 2048, 67_108_864, "= 64 MiB");
        }
        other => panic!("expected JumpAhead on the first Pass 1 error, got {other:?}"),
    }
    ctx.jump_multiplier = 2;
    match handle_read_error(&medium_err(), &mut ctx) {
        ReadAction::JumpAhead { sectors, .. } => assert_eq!(
            sectors, 65_536,
            "one doubling of the multiplier is 128 MiB, not more"
        ),
        other => panic!("expected JumpAhead, got {other:?}"),
    }
}

#[test]
fn the_long_streak_escalation_fires_at_its_threshold() {
    let mut ctx = ReadCtx::for_patch(1);
    ctx.damage_threshold_pct = 101; // window jumps off; pause path only

    for i in 1..=9 {
        match handle_read_error(&medium_err(), &mut ctx) {
            ReadAction::SkipBlock { pause_secs } => assert_eq!(
                pause_secs, 5,
                "failure {i} is below the streak threshold and gets the \
                 ordinary 5 s pause"
            ),
            other => panic!("failure {i}: expected SkipBlock, got {other:?}"),
        }
        assert_eq!(
            ctx.long_pause_escalations, 0,
            "the escalation must not fire before its 10-failure threshold \
             (fired on failure {i})"
        );
    }

    for i in 10..=13u64 {
        match handle_read_error(&medium_err(), &mut ctx) {
            ReadAction::SkipBlock { pause_secs } => assert_eq!(pause_secs, 5),
            other => panic!("failure {i}: expected SkipBlock, got {other:?}"),
        }
        assert_eq!(
            ctx.long_pause_escalations,
            i - 9,
            "failure {i} is inside the streak and must take the escalation"
        );
    }

    ctx.on_success();
    handle_read_error(&medium_err(), &mut ctx);
    assert_eq!(
        ctx.long_pause_escalations, 4,
        "the streak ended at the successful read; the next failure is not \
         an escalation"
    );
    assert_eq!(
        ctx.pass_summary().long_pause_escalations,
        4,
        "the pass summary reports the escalations, or the operator cannot \
         see them"
    );
}

#[test]
fn the_zone_entry_cooldown_outranks_the_streak_escalation() {
    let mut ctx = ReadCtx::for_sweep(1);
    ctx.fast_jump_threshold = u64::MAX;
    ctx.damage_threshold_pct = 101;
    ctx.consecutive_failures = 50;
    match handle_read_error(&medium_err(), &mut ctx) {
        ReadAction::SkipBlock { pause_secs } => assert_eq!(
            pause_secs, 30,
            "the zone-entry cooldown wins over the streak escalation"
        ),
        other => panic!("expected SkipBlock, got {other:?}"),
    }
    assert_eq!(
        ctx.long_pause_escalations, 0,
        "the escalation branch must not also run"
    );
}

#[test]
fn wedge_transition_is_the_step_from_an_ordinary_family() {
    assert!(is_wedge_transition(Some(SenseFamily::Medium), SenseFamily::Hardware));
    assert!(is_wedge_transition(Some(SenseFamily::NotReady), SenseFamily::IllegalRequest));
    assert!(!is_wedge_transition(Some(SenseFamily::Hardware), SenseFamily::Hardware));
    assert!(!is_wedge_transition(None, SenseFamily::Hardware));
    assert!(!is_wedge_transition(Some(SenseFamily::Medium), SenseFamily::Medium));
}

#[test]
fn any_other_answer_resets_the_not_ready_count() {
    let mut ctx = ReadCtx::for_patch(1);
    handle_read_error(&not_ready_err(), &mut ctx);
    handle_read_error(&not_ready_err(), &mut ctx);
    assert_eq!(ctx.not_ready_retries, 2);
    let a = handle_read_error(&bridge_degradation_err(), &mut ctx);
    assert!(matches!(a, ReadAction::Retry { pause_secs: 15 }));
    assert_eq!(ctx.bridge_degradation_count, 1);
    assert_eq!(ctx.not_ready_retries, 0);

    handle_read_error(&not_ready_err(), &mut ctx);
    assert_eq!(ctx.not_ready_retries, 1);
    handle_read_error(&medium_err(), &mut ctx);
    assert_eq!(ctx.not_ready_retries, 0);
}

fn longest_run_of_retries(errs: &[ReadFailure]) -> usize {
    let mut ctx = ReadCtx::for_sweep(32);
    let mut in_a_row = 0;
    let mut most = 0;
    for err in errs {
        if matches!(handle_read_error(err, &mut ctx), ReadAction::Retry { .. }) {
            in_a_row += 1;
            most = most.max(in_a_row);
        } else {
            in_a_row = 0;
        }
    }
    most
}

#[test]
fn retries_of_each_kind_and_of_both_run_out() {
    let not_ready: Vec<ReadFailure> = (0..100).map(|_| not_ready_err()).collect();
    assert_eq!(longest_run_of_retries(&not_ready), 3);
    let bridge: Vec<ReadFailure> = (0..100).map(|_| bridge_degradation_err()).collect();
    assert_eq!(longest_run_of_retries(&bridge), 5);
    let both: Vec<ReadFailure> = (0..100)
        .map(|i| if i % 4 == 3 { bridge_degradation_err() } else { not_ready_err() })
        .collect();
    assert_eq!(longest_run_of_retries(&both), 23);
    let mut ctx = ReadCtx::for_sweep(32);
    for err in &both {
        handle_read_error(err, &mut ctx);
    }
    ctx.on_success();
    assert!(matches!(
        handle_read_error(&not_ready_err(), &mut ctx),
        ReadAction::Retry { pause_secs: 3 }
    ));
}

#[test]
fn the_damage_window_never_outgrows_its_size() {
    let mut ctx = ReadCtx::for_patch(1);
    for i in 0..200 {
        if i % 3 == 0 {
            ctx.on_success();
        } else {
            handle_read_error(&medium_err(), &mut ctx);
        }
        assert!(ctx.damage_window.len() <= 16);
        assert!(ctx.jump_multiplier >= 1 && ctx.jump_multiplier <= 64);
    }
}

#[test]
fn pass_totals_are_those_of_the_pass() {
    let mut ctx = ReadCtx::for_sweep(32);
    ctx.on_success();
    ctx.on_success();
    handle_read_error(&medium_err(), &mut ctx);
    handle_read_error(&recovered_err(), &mut ctx);
    let s = ctx.pass_summary();
    assert_eq!(s.total_reads_ok, 2);
    assert_eq!(s.total_errors, 2);
    assert_eq!(s.zones_entered, 1);
    assert_eq!(s.jumps_taken, 1);
    assert_eq!(s.long_pause_escalations, 0);
    assert_eq!(s.marginal_recovered, 1);
}
