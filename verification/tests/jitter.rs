use hft_stealth::execution::jitter::{isqrt, JitterConfig, JitterType, TimingObfuscator};

#[test]
fn test_jitter_generation() {
    let config = JitterConfig::default();
    let mut jitter_gen = TimingObfuscator::new(config);

    for _ in 0..100 {
        let us = jitter_gen.generate_uniform();
        assert!(us >= 50 && us <= 500);
    }

    let stats = jitter_gen.stats();
    println!("Jitter stats: {:?}", stats);
    assert!(stats.mean_us >= 50 && stats.mean_us <= 500);
}

#[test]
fn clamped_jitter_and_history_limit() {
    let config = JitterConfig { jitter_type: JitterType::Gaussian, ..Default::default() };
    let mut t = TimingObfuscator::new(config);
    assert_eq!(t.record_jitter(10), 50);
    assert_eq!(t.record_jitter(900), 500);
    assert_eq!(t.record_jitter(300), 300);
    for _ in 0..1200 {
        t.record_jitter(100);
    }
    assert_eq!(t.stats().count, 1000);
    t.reset();
    assert_eq!(t.stats().count, 0);
}

#[test]
fn jitter_statistics() {
    let config = JitterConfig { jitter_type: JitterType::Poisson, ..Default::default() };
    let mut t = TimingObfuscator::new(config);
    for v in [2u64, 4, 4, 4, 5, 5, 7, 9] {
        t.record_jitter(v);
    }
    let st = t.stats();
    assert_eq!(st.count, 8);
    assert_eq!(st.mean_us, 5);
    assert_eq!(st.std_us, 2);
    assert_eq!(st.min_us, 2);
    assert_eq!(st.max_us, 9);
    assert_eq!(st.last_jitter_us, 9);
    assert_eq!(t.record_jitter(1_000_000), 1_000_000);
}

#[test]
fn integer_square_root() {
    assert_eq!(isqrt(0), 0);
    assert_eq!(isqrt(15), 3);
    assert_eq!(isqrt(16), 4);
    assert_eq!(isqrt(u128::MAX), u64::MAX);
}

#[test]
fn history_keeps_the_latest_values_in_order() {
    let config = JitterConfig { jitter_type: JitterType::Gaussian, ..Default::default() };
    let mut t = TimingObfuscator::new(config);
    assert_eq!(t.history_values(), Vec::<u64>::new());
    t.record_jitter(10);
    t.record_jitter(70);
    t.record_jitter(900);
    assert_eq!(t.history_values(), vec![50, 70, 500]);
    for v in 0..1000u64 {
        t.record_jitter(100 + v % 300);
    }
    let h = t.history_values();
    assert_eq!(h.len(), 1000);
    assert_eq!(h[0], 100);
    assert_eq!(h[999], 100 + 999 % 300);
}
