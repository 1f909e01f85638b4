use burst::backoff_delay_ms;

#[test]
fn backoff_doubles_from_base_and_caps() {
    assert_eq!(backoff_delay_ms(0, 100, 800), 100);
    assert_eq!(backoff_delay_ms(1, 100, 800), 200);
    assert_eq!(backoff_delay_ms(2, 100, 800), 400);
    assert_eq!(backoff_delay_ms(3, 100, 800), 800);
    assert_eq!(backoff_delay_ms(4, 100, 800), 800);
    assert_eq!(backoff_delay_ms(60, 100, 800), 800);
}

#[test]
fn backoff_caps_at_odd_maximum() {
    assert_eq!(backoff_delay_ms(0, 100, 750), 100);
    assert_eq!(backoff_delay_ms(1, 100, 750), 200);
    assert_eq!(backoff_delay_ms(2, 100, 750), 400);
    // 400 is above 750 / 2, so the next wait is the cap itself
    assert_eq!(backoff_delay_ms(3, 100, 750), 750);
    assert_eq!(backoff_delay_ms(4, 100, 750), 750);
}

#[test]
fn backoff_with_base_above_maximum_is_the_maximum() {
    assert_eq!(backoff_delay_ms(0, 5000, 800), 800);
    assert_eq!(backoff_delay_ms(7, 5000, 800), 800);
}
