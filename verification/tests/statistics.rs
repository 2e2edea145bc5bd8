use nvmbuilder::commands::stats::{BlockStat, BuildStats};
use nvmbuilder::layout::ieee754::{f64_div, f64_mul, percentage, tenths};
use nvmbuilder::visuals::formatters::format_efficiency;

fn stat(allocated: u32, used: u32) -> BlockStat {
    BlockStat {
        name: "b".to_string(),
        start_address: 0x1000,
        allocated_size: allocated,
        used_size: used,
        crc_value: 0x12345678,
    }
}

#[test]
fn test_space_efficiency_edge_cases() {
    let mut stats = BuildStats::new();
    assert_eq!(f64::from_bits(stats.space_efficiency()), 0.0);
    assert_eq!(stats.space_efficiency(), 0.0f64.to_bits());

    stats.add_block(BlockStat {
        name: "full".to_string(),
        start_address: 0x1000,
        allocated_size: 100,
        used_size: 100,
        crc_value: 0x12345678,
    });

    let efficiency = f64::from_bits(stats.space_efficiency());
    assert!((efficiency - 100.0).abs() < 0.01);
    assert_eq!(efficiency, 100.0);
}

#[test]
fn space_efficiency_of_two_blocks() {
    let mut stats = BuildStats::new();
    stats.add_block(stat(100, 80));
    stats.add_block(stat(200, 120));
    let efficiency = f64::from_bits(stats.space_efficiency());
    let expected = (200.0 / 300.0) * 100.0;
    assert!((efficiency - expected).abs() < 0.01);
    assert_eq!(efficiency.to_bits(), expected.to_bits());
}

fn numbers() -> Vec<u64> {
    let mut out: Vec<u64> = vec![
        1,
        2,
        3,
        7,
        9,
        10,
        80,
        100,
        120,
        200,
        300,
        799,
        800,
        1000,
        2000,
        4095,
        4096,
        65535,
        65536,
        1 << 31,
        u32::MAX as u64,
        1 << 32,
        (1 << 53) - 1,
        1 << 53,
        (1 << 53) + 1,
        (1 << 63) - 1,
        1 << 63,
        u64::MAX - 1,
        u64::MAX,
    ];
    let mut x: u64 = 0x1234_5678_9ABC_DEF1;
    for _ in 0..300 {
        x ^= x << 13;
        x ^= x >> 7;
        x ^= x << 17;
        out.push(x);
        out.push(x >> (x % 64));
        out.push((x >> 40) | 1);
    }
    out.retain(|v| *v > 0);
    out
}

#[test]
fn percentages_match_the_machine() {
    let all = numbers();
    for used in &all {
        for allocated in &all {
            let expected = (*used as f64 / *allocated as f64) * 100.0;
            assert_eq!(
                percentage(*used, *allocated),
                expected.to_bits(),
                "{used} of {allocated}"
            );
        }
        assert_eq!(percentage(*used, 0), 0);
        assert_eq!(percentage(0, *used), 0);
        assert_eq!(f64::from_bits(percentage(*used, *used)), 100.0);
    }
    assert_eq!(percentage(0, 0), 0);
}

#[test]
fn quotients_and_products_match_the_machine() {
    let all: Vec<f64> = numbers().iter().map(|v| *v as f64).collect();
    for x in &all {
        for y in &all {
            assert_eq!(f64_div(x.to_bits(), y.to_bits()), (x / y).to_bits(), "{x} / {y}");
        }
    }
    let small: Vec<f64> =
        numbers().iter().filter(|v| **v < (1 << 40)).map(|v| *v as f64 / 1024.0).collect();
    for x in &small {
        for y in &small {
            assert_eq!(f64_mul(x.to_bits(), y.to_bits()), (x * y).to_bits(), "{x} * {y}");
        }
    }
}

#[test]
fn efficiency_is_shown_with_one_decimal() {
    assert_eq!(format_efficiency(0, 0), "0.0%");
    assert_eq!(format_efficiency(5, 0), "0.0%");
    assert_eq!(format_efficiency(0, 5), "0.0%");
    assert_eq!(format_efficiency(100, 100), "100.0%");
    assert_eq!(format_efficiency(80, 100), "80.0%");
    assert_eq!(format_efficiency(2, 3), "66.7%");
    assert_eq!(format_efficiency(1, 3), "33.3%");
    // ties go to the even digit
    assert_eq!(format_efficiency(1, 800), "0.1%");
    assert_eq!(format_efficiency(3, 800), "0.4%");
    assert_eq!(format_efficiency(5, 800), "0.6%");
    assert_eq!(format_efficiency(1, 1600), "0.1%");
    assert_eq!(format_efficiency(1, 3200), "0.0%");
    assert_eq!(format_efficiency(u32::MAX, 1), "429496729500.0%");
    assert_eq!(format_efficiency(1, u32::MAX), "0.0%");
    let mut all: Vec<u32> = numbers().iter().map(|v| (*v % (1 << 32)) as u32).collect();
    all.push(0);
    all.extend(1..60);
    all.extend([125, 250, 375, 625, 875, 1250, 8000, 16000, 32000, 64000]);
    for used in &all {
        for allocated in &all {
            if *allocated == 0 {
                continue;
            }
            let expected = format!("{:.1}%", (*used as f64 / *allocated as f64) * 100.0);
            assert_eq!(format_efficiency(*used, *allocated), expected, "{used} of {allocated}");
        }
    }
    for v in [0.05f64, 0.15, 0.25, 0.35, 0.45, 1.0, 99.95, 1e6, 123456.75, 0.96] {
        let expected: f64 = format!("{:.1}", v).parse().unwrap();
        assert_eq!(tenths(v.to_bits()) as f64 / 10.0, expected, "{v}");
    }
}
