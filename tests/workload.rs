use std::collections::HashMap;

use pushback_client::workload::{Op, Pushback};
use rand::{Rng, XorShiftRng};
use zipf::ZipfDistribution;

/// A generator together with the Zipfian draws of key and tenant ranks it is fed.
struct Bench {
    b: Pushback,
    keys: ZipfDistribution<XorShiftRng>,
    tenants: ZipfDistribution<XorShiftRng>,
}

impl Bench {
    fn abc(&mut self) -> Op {
        let t = self.tenants.next_u64() as u32;
        let k = self.keys.next_u64() as u32;
        self.b.abc(t, k)
    }
}

fn bench(key_len: usize, value_len: usize, n_keys: usize, put_pct: usize, skew: f64) -> Bench {
    Bench {
        b: Pushback::new(key_len, value_len, n_keys as u32, put_pct, 4),
        keys: ZipfDistribution::new(rand::weak_rng(), n_keys, skew).unwrap(),
        tenants: ZipfDistribution::new(rand::weak_rng(), 4, skew).unwrap(),
    }
}

// Convert a key to u32 assuming little endian.
fn convert_key(key: &[u8]) -> u32 {
    assert_eq!(4, key.len());
    u32::from_le_bytes([key[0], key[1], key[2], key[3]])
}

#[test]
fn pushback_abc_basic() {
    let mut b = bench(10, 100, 1_000_000, 5, 0.99);
    let mut n_gets = 0u64;
    let mut n_puts = 0u64;
    for _ in 0..100_000 {
        match b.abc() {
            Op::Get { .. } => n_gets += 1,
            Op::Put { .. } => n_puts += 1,
        }
        assert_eq!(b.b.key_buf.len(), 10);
        assert!(b.b.key_buf[4..].iter().all(|&x| x == 0));
        assert_eq!(b.b.value_buf, vec![0u8; 100]);
    }
    assert_eq!(n_gets + n_puts, 100_000);
    // Five percent puts, within a wide margin.
    assert!(n_puts > 2_000 && n_puts < 8_000);
}

#[test]
fn pushback_abc_histogram() {
    let n_keys = 20;
    let mut b = bench(4, 100, n_keys, 5, 0.99);
    let mut hist: HashMap<u32, (u64, u64)> = HashMap::new();
    let draws = 200_000u64;
    for _ in 0..draws {
        let op = b.abc();
        let k = convert_key(&b.b.key_buf);
        match op {
            Op::Get { .. } => hist.entry(k).or_insert((0, 0)).0 += 1,
            Op::Put { .. } => hist.entry(k).or_insert((0, 0)).1 += 1,
        }
    }
    assert_eq!(n_keys, hist.len());
    assert!(hist.keys().all(|&k| k >= 1 && k <= n_keys as u32));
    let total: u64 = hist.values().map(|&(g, s)| g + s).sum();
    assert_eq!(total, draws);
    // Zipfian: the first key is the most frequent, and far more so than the last.
    let count = |k: u32| hist[&k].0 + hist[&k].1;
    assert!(count(1) > count(2));
    assert!(count(1) > 10 * count(20));
}

#[test]
fn put_pct_extremes() {
    let mut all_gets = bench(8, 8, 10, 0, 0.5);
    let mut all_puts = bench(8, 8, 10, 100, 0.5);
    for _ in 0..1000 {
        assert!(matches!(all_gets.abc(), Op::Get { .. }));
        assert!(matches!(all_puts.abc(), Op::Put { .. }));
    }
}

#[test]
fn choose_op_is_exact() {
    let mut b = Pushback::new(6, 2, u32::MAX, 30, 4);
    assert!(matches!(b.choose_op(29, 3, 0x0102_0304), Op::Put { tenant: 3 }));
    assert_eq!(b.key_buf, vec![4, 3, 2, 1, 0, 0]);
    assert!(matches!(b.choose_op(130, 5, 7), Op::Get { tenant: 5 }));
    assert_eq!(b.key_buf, vec![7, 0, 0, 0, 0, 0]);
    assert!(matches!(b.choose_op(99, 2, 9), Op::Get { tenant: 2 }));
    assert_eq!(b.key_buf, vec![9, 0, 0, 0, 0, 0]);
    // abc writes the key rank it is given and keeps the tenant.
    assert!(matches!(b.abc(4, 0x0a0b_0c0d), Op::Get { tenant: 4 } | Op::Put { tenant: 4 }));
    assert_eq!(b.key_buf, vec![0x0d, 0x0c, 0x0b, 0x0a, 0, 0]);
}

#[test]
fn keys_are_never_zero() {
    let mut b = bench(4, 0, 3, 50, 1.2);
    for _ in 0..10_000 {
        b.abc();
        let k = convert_key(&b.b.key_buf);
        assert!(k >= 1 && k <= 3);
    }
}
