use siliceo_motor::float::{add_f32, mul_f32, sub_f32};
use siliceo_motor::sampling::{argmax, candidates, draw, nucleus, rank, Rng, Sampler};

fn patterns(x: &[f32]) -> Vec<u32> {
    x.iter().map(|v| v.to_bits()).collect()
}

/// The probabilities of logits.
fn softmax(logits: &[f32], t: f32) -> Vec<f32> {
    let mut probs: Vec<f32> = logits.iter().map(|l| l / t).collect();
    let max = probs.iter().fold(f32::NEG_INFINITY, |m, &v| if v > m { v } else { m });
    let mut sum = 0.0f32;
    for v in probs.iter_mut() {
        *v = (*v - max).exp();
        sum += *v;
    }
    for v in probs.iter_mut() {
        *v /= sum;
    }
    probs
}

fn sample(s: &Sampler, logits: &[f32], rng: &mut Rng) -> usize {
    let probs = if s.is_greedy() { Vec::new() } else { softmax(logits, f32::from_bits(s.temperature)) };
    s.sample(&patterns(logits), &patterns(&probs), rng)
}

/// The same choice with the machine's floating point.
fn machine_sample(s: &Sampler, logits: &[f32], rng: &mut Rng) -> usize {
    let probs = softmax(logits, f32::from_bits(s.temperature));
    let mut idx = candidates(&patterns(&probs), s.top_k);
    if let Some(p) = s.top_p {
        let mut cum = 0.0f32;
        let mut cut = idx.len();
        for (i, &j) in idx.iter().enumerate() {
            cum += probs[j];
            if cum >= f32::from_bits(p) {
                cut = i + 1;
                break;
            }
        }
        idx.truncate(cut.max(1));
    }
    let total: f32 = idx.iter().map(|&j| probs[j]).sum();
    let mut r = f32::from_bits(rng.next_f32()) * total;
    for &j in &idx {
        r -= probs[j];
        if r <= 0.0 {
            return j;
        }
    }
    *idx.last().unwrap()
}

fn sampler(temperature: f32, top_k: Option<usize>, top_p: Option<f32>) -> Sampler {
    Sampler::new(temperature.to_bits(), top_k, top_p.map(f32::to_bits))
}

#[test]
fn greedy_sceglie_argmax() {
    let s = Sampler::greedy();
    let mut rng = Rng::new(1);
    assert_eq!(sample(&s, &[0.1, 5.0, 3.0], &mut rng), 1);
    assert_eq!(sample(&s, &[2.0, 2.0, 1.0], &mut rng), 0);
}

#[test]
fn temperatura_zero_e_greedy_equivalenti() {
    let s = sampler(0.0, Some(40), Some(0.9));
    let mut rng = Rng::new(42);
    assert_eq!(sample(&s, &[-1.0, 9.0, 2.0, 9.0], &mut rng), 1);
}

#[test]
fn topk_1_e_argmax_con_qualsiasi_temperatura() {
    let s = sampler(1.5, Some(1), None);
    let mut rng = Rng::new(7);
    assert_eq!(sample(&s, &[0.2, 0.1, 8.8], &mut rng), 2);
}

#[test]
fn seed_stesso_distribuzione_stessa() {
    let logits = vec![0.1f32; 100];
    let a = sampler(0.8, None, None);
    let b = sampler(0.8, None, None);
    let mut ra = Rng::new(123);
    let mut rb = Rng::new(123);
    for _ in 0..50 {
        assert_eq!(sample(&a, &logits, &mut ra), sample(&b, &logits, &mut rb));
    }
}

#[test]
fn topp_piccolo_cola_al_top() {
    let mut logits = vec![0.0f32; 10];
    logits[3] = 20.0;
    let s = sampler(1.0, None, Some(0.01));
    let mut rng = Rng::new(99);
    assert_eq!(sample(&s, &logits, &mut rng), 3);
}

#[test]
fn rng_uniformo_in_range() {
    let mut rng = Rng::new(5);
    for _ in 0..1000 {
        let v = f32::from_bits(rng.next_f32());
        assert!((0.0..1.0).contains(&v));
    }
}

#[test]
fn known_sequence() {
    // splitmix64 from state zero
    let mut rng = Rng::new(0u64.wrapping_sub(0x9E3779B97F4A7C15));
    assert_eq!(rng.next_u64(), 0xE220A8397B1DCDAF);
    assert_eq!(rng.next_u64(), 0x6E789E6AA1B965F4);
    let mut a = Rng::new(9);
    let mut b = Rng::new(9);
    for _ in 0..100 {
        let x = a.next_u64();
        let want = ((x >> 11) as f64 / (1u64 << 53) as f64) as f32;
        assert_eq!(b.next_f32(), want.to_bits());
    }
}

#[test]
fn generators_from_the_clock() {
    let mut fixed = Rng::from_clock(Some((3u128 << 64) + 17));
    assert_eq!(fixed.next_u64(), Rng::new(17).next_u64());
    assert_eq!(Rng::from_clock(None).next_u64(), Rng::new(0).next_u64());
    // the clock does not stand at its origin
    assert_ne!(Rng::from_time().next_u64(), Rng::new(0).next_u64());
}

#[test]
fn ranking_orders_everything() {
    let p = patterns(&[0.1, f32::NAN, 0.5, 0.1, -0.0, 0.0, -1.0, f32::INFINITY]);
    assert_eq!(rank(&p), vec![7, 2, 0, 3, 4, 5, 6, 1]);
    assert_eq!(rank(&[]), Vec::<usize>::new());
    let many: Vec<f32> = (0..1000).map(|i| ((i * 7919) % 1000) as f32).collect();
    let r = rank(&patterns(&many));
    assert!((1..1000).all(|i| many[r[i - 1]] > many[r[i]]));
    assert_eq!(r[0], argmax(&patterns(&many)));
}

#[test]
fn top_k_keeps_at_least_one() {
    let p = patterns(&[0.2, 0.5, 0.3]);
    assert_eq!(candidates(&p, Some(0)), vec![1]);
    assert_eq!(candidates(&p, Some(2)), vec![1, 2]);
    assert_eq!(candidates(&p, Some(9)), vec![1, 2, 0]);
    assert_eq!(candidates(&p, None), vec![1, 2, 0]);
}

#[test]
fn nucleus_takes_the_crossing_token() {
    let sums = patterns(&[0.5, 0.8, 1.0]);
    assert_eq!(nucleus(&sums, 0.5f32.to_bits()), 1);
    assert_eq!(nucleus(&sums, 0.6f32.to_bits()), 2);
    assert_eq!(nucleus(&sums, 0.0f32.to_bits()), 1);
    assert_eq!(nucleus(&sums, 2.0f32.to_bits()), 3);
    assert_eq!(nucleus(&sums, f32::NAN.to_bits()), 3);
}

#[test]
fn draw_falls_back_to_the_last() {
    assert_eq!(draw(&patterns(&[0.3, -0.1, -0.5])), 1);
    assert_eq!(draw(&patterns(&[0.0, -0.1])), 0);
    assert_eq!(draw(&patterns(&[0.3, 0.2])), 1);
}

#[test]
fn greedy_or_not() {
    assert!(sampler(-1.0, None, None).is_greedy());
    assert!(sampler(-0.0, None, None).is_greedy());
    assert!(!sampler(0.1, None, None).is_greedy());
    assert!(!sampler(f32::NAN, None, None).is_greedy());
    assert_eq!(argmax(&[]), 0);
    assert_eq!(argmax(&patterns(&[f32::NAN, 1.0])), 0);
}

#[test]
fn choices_agree_with_the_machine() {
    let logits: Vec<f32> = (0..200).map(|i| ((i * 7919) % 211) as f32 / 13.0 - 5.0).collect();
    for (seed, s) in [
        sampler(0.8, None, None),
        sampler(1.3, Some(40), None),
        sampler(0.5, None, Some(0.9)),
        sampler(2.0, Some(50), Some(0.5)),
        sampler(1.0, Some(0), Some(0.0)),
    ]
    .iter()
    .enumerate()
    {
        let mut a = Rng::new(seed as u64);
        let mut b = Rng::new(seed as u64);
        for _ in 0..200 {
            assert_eq!(sample(s, &logits, &mut a), machine_sample(s, &logits, &mut b));
        }
    }
}

#[test]
fn sums_and_products_are_the_machines() {
    let mut rng = Rng::new(77);
    let special = [0.0f32, -0.0, 1.0, -1.0, f32::MIN_POSITIVE, 1e-45, -1e-45, f32::MAX, f32::MIN, f32::INFINITY, f32::NEG_INFINITY, f32::NAN];
    let mut numbers: Vec<u32> = patterns(&special);
    for _ in 0..300 {
        let x = rng.next_u64();
        numbers.push(x as u32);
        // numbers of similar size
        numbers.push(0x3f00_0000 + (x >> 40) as u32);
        numbers.push(0xbf00_0000 + (x >> 38) as u32 % 0x100_0000);
    }
    let same = |got: u32, want: f32| if want.is_nan() { f32::from_bits(got).is_nan() } else { got == want.to_bits() };
    for &a in numbers.iter().step_by(3).chain(numbers.iter().take(12)) {
        for &b in &numbers {
            let (x, y) = (f32::from_bits(a), f32::from_bits(b));
            assert!(same(add_f32(a, b), x + y), "{x:e} + {y:e}");
            assert!(same(sub_f32(a, b), x - y), "{x:e} - {y:e}");
        }
    }
    for w in numbers.windows(2) {
        let (x, y) = (f32::from_bits(w[0]), f32::from_bits(w[1]));
        assert!(same(mul_f32(w[0], w[1]), x * y), "{x:e} * {y:e}");
    }
}
