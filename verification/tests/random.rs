use sozune_redirectionio::random::{fill_random, next_state, INITIAL_STATE, STATE_STEP};

#[test]
fn the_state_steps_and_wraps() {
    assert_eq!(next_state(0), STATE_STEP);
    assert_eq!(next_state(u64::MAX), STATE_STEP - 1);
    assert_eq!(next_state(INITIAL_STATE), 0xC37D_6E4A_CEB7_5932);
}

#[test]
fn random_bytes_are_the_low_bytes_of_the_rounds() {
    let mut buf = [0u8; 6];
    fill_random(INITIAL_STATE, &mut buf);
    assert_eq!(buf, [173, 118, 54, 116, 236, 121]);
    let mut next = [0u8; 3];
    fill_random(next_state(INITIAL_STATE), &mut next);
    assert_eq!(next, [65, 55, 65]);
}

#[test]
fn the_generator_does_not_get_stuck_at_zero() {
    let mut buf = [0u8; 64];
    fill_random(0, &mut buf);
    assert_eq!(buf[..3], [65, 65, 41]);
    assert!(buf[32..].iter().any(|&b| b != 0));
}

#[test]
fn an_empty_buffer_stays_empty() {
    let mut buf: [u8; 0] = [];
    fill_random(INITIAL_STATE, &mut buf);
    assert_eq!(buf.len(), 0);
}

#[test]
fn different_states_give_different_bytes() {
    let mut a = [0u8; 16];
    let mut b = [0u8; 16];
    fill_random(1, &mut a);
    fill_random(3, &mut b);
    assert_ne!(a, b);
}
