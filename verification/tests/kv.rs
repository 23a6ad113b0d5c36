use siliceo_motor::kv::KvCache;
use siliceo_motor::qwen2::{Config, Layout};

fn config() -> Config {
    Config {
        n_layers: 2,
        n_embd: 8,
        n_ff: 16,
        n_heads: 4,
        n_kv_heads: 2,
        head_dim: 2,
        rope_theta: 10000.0f32.to_bits(),
        rms_eps: 1e-6f32.to_bits(),
        vocab_size: 10,
    }
}

#[test]
fn written_positions_are_read_back() {
    let mut c: KvCache<f32> = KvCache::new(&config(), 3, 0.0);
    assert_eq!(c.len, 0);
    c.write(0, &[1.0, 2.0, 3.0, 4.0, 5.0, 6.0, 7.0, 8.0], &[0.5; 8]);
    c.write(1, &[9.0; 8], &[8.0; 8]);
    c.advance(2);
    assert_eq!(c.len, 2);
    c.write(0, &[-1.0; 4], &[-2.0; 4]);
    // the past stays
    assert_eq!(c.layer_k_upto(0, 2), &[1.0, 2.0, 3.0, 4.0, 5.0, 6.0, 7.0, 8.0]);
    assert_eq!(c.layer_v_upto(0, 2), &[0.5; 8]);
    c.advance(1);
    assert_eq!(&c.layer_k_upto(0, 3)[8..], &[-1.0; 4]);
    assert_eq!(&c.layer_v_upto(0, 3)[8..], &[-2.0; 4]);
    assert_eq!(c.layer_k_upto(1, 2), &[9.0; 8]);
    assert_eq!(&c.layer_k_upto(1, 3)[8..], &[0.0; 4]);
    c.reset();
    assert_eq!(c.len, 0);
    c.write(1, &[7.0; 4], &[7.0; 4]);
    assert_eq!(c.layer_k_upto(1, 1), &[7.0; 4]);
}

#[test]
fn layout_of_a_pass() {
    let l = Layout::new(&config(), 5).unwrap();
    assert_eq!(l.kv_dim(), 4);
    assert_eq!((0..4).map(|h| l.kv_head(h)).collect::<Vec<_>>(), vec![0, 0, 1, 1]);
    assert_eq!(l.row_at(9), 72);
    assert_eq!(l.query_at(3, 2), 3 * 8 + 2 * 2);
    assert_eq!(l.key_at(3, 2), 3 * 4 + 1 * 2);
    assert_eq!(l.rope_at(4, 2, 1, 0), ((2 * 4 + 1) * 2, (2 * 4 + 1) * 2 + 1));
}

#[test]
fn dimensions_that_allow_no_pass() {
    let mut c = config();
    c.n_kv_heads = 0;
    assert!(Layout::new(&c, 1).is_none());
    c.n_kv_heads = 3;
    assert!(Layout::new(&c, 1).is_none());
    c.n_kv_heads = 8;
    assert!(Layout::new(&c, 1).is_none());
    let mut c = config();
    c.head_dim = 3;
    assert!(Layout::new(&c, 1).is_none());
    assert!(Layout::new(&config(), usize::MAX).is_none());
}
