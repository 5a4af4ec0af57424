use goku::execution::{
    lcg_rand, now_ms, pool_idle_secs, pseudo_uuid, ramp_up_delay_ms, substitute_variables,
    substitute_variables_at,
};

#[test]
fn lcg_rand_known_values() {
    assert_eq!(lcg_rand(0), 1442695040888963407);
    assert_eq!(lcg_rand(1), 6364136223846793005u64.wrapping_add(1442695040888963407));
}

#[test]
fn text_without_templates_is_unchanged() {
    assert_eq!(substitute_variables("http://x/ü", 3, 1), Some("http://x/ü".to_string()));
    assert_eq!(substitute_variables("{ \"a\": 1 }", 3, 1), Some("{ \"a\": 1 }".to_string()));
}

#[test]
fn seq_client_and_timestamp_are_filled_in() {
    assert_eq!(
        substitute_variables_at("/u/{{seq}}/{{client}}?t={{timestamp}}", 7, 2, 1234),
        Some("/u/7/2?t=1234".to_string())
    );
}

#[test]
fn uuid_is_filled_in() {
    let u = pseudo_uuid(1234, 7, 2);
    assert_eq!(substitute_variables_at("{{uuid}}", 7, 2, 1234), Some(u.clone()));
    assert_eq!(u.len(), 36);
    let bytes = u.as_bytes();
    for i in [8, 13, 18, 23] {
        assert_eq!(bytes[i], b'-');
    }
    assert_eq!(bytes[14], b'4');
    assert!(matches!(bytes[19], b'8' | b'9' | b'a' | b'b'));
    assert!(u.chars().all(|c| c == '-' || c.is_ascii_hexdigit()));
}

#[test]
fn random_int_stays_in_range() {
    for seq in 0..50u32 {
        let s = substitute_variables_at("v={{random_int(5, 9)}};", seq, 1, 99).unwrap();
        let v: i64 = s["v=".len()..s.len() - 1].parse().unwrap();
        assert!((5..=9).contains(&v));
    }
    assert_eq!(substitute_variables_at("{{random_int(-3,-3)}}", 1, 1, 1), Some("-3".to_string()));
}

#[test]
fn random_int_with_bad_bounds_is_kept() {
    assert_eq!(
        substitute_variables_at("{{random_int(a,2)}}", 1, 1, 1),
        Some("{{random_int(a,2)}}".to_string())
    );
    assert_eq!(
        substitute_variables_at("{{random_int(1)}}", 1, 1, 1),
        Some("{{random_int(1)}}".to_string())
    );
}

#[test]
fn overflowing_range_is_refused() {
    assert_eq!(
        substitute_variables_at("{{random_int(-9223372036854775808,9223372036854775807)}}", 1, 1, 1),
        None
    );
}

#[test]
fn non_ascii_text_is_kept_around_templates() {
    assert_eq!(substitute_variables_at("ü{{seq}}", 1, 1, 1), Some("ü1".to_string()));
    assert_eq!(
        substitute_variables_at("name=José&n={{seq}}", 1, 0, 5),
        Some("name=José&n=1".to_string())
    );
}

#[test]
fn clock_reads_after_2020() {
    assert!(now_ms() > 1_577_836_800_000);
}

#[test]
fn ramp_up_spreads_workers() {
    assert_eq!(ramp_up_delay_ms(Some(10), 4), Some(2500));
    assert_eq!(ramp_up_delay_ms(Some(3), 0), Some(3000));
    assert_eq!(ramp_up_delay_ms(None, 4), None);
    assert_eq!(pool_idle_secs(None), 90);
    assert_eq!(pool_idle_secs(Some(5)), 5);
}
