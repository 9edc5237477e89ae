use candle_core::Device;
use logslm::model::{causal_mask_allowed, Config};
use logslm::tokenizer::CharTokenizer;
use logslm::training::{
    init_rule, init_visit_order, line_scoring_window, sample_batch, sample_windows, scoring_window, should_report, training_batch, windows_at, TRAINING_BATCH,
    InitRule,
};

#[test]
fn windows_are_shifted_by_one() {
    let data: Vec<u32> = (0..20).collect();
    for _ in 0..20 {
        let (xs, ys) = sample_windows(&data, 4, 5);
        assert_eq!(xs.len(), 20);
        assert_eq!(ys.len(), 20);
        for r in 0..4 {
            let start = xs[r * 5];
            assert!((start as usize) + 5 + 1 < data.len());
            for j in 0..5 {
                assert_eq!(xs[r * 5 + j], start + j as u32);
                assert_eq!(ys[r * 5 + j], start + j as u32 + 1);
            }
        }
    }
}

#[test]
fn smallest_data_has_one_window() {
    let data = vec![7, 8, 9];
    let (xs, ys) = sample_windows(&data, 3, 1);
    assert_eq!(xs, vec![7, 7, 7]);
    assert_eq!(ys, vec![8, 8, 8]);
}

#[test]
fn batch_tensors_have_batch_by_block_shape() {
    let data: Vec<u32> = (0..50).collect();
    let (x, y) = sample_batch(&data, 3, 8, &Device::Cpu).unwrap();
    assert_eq!(x.dims(), &[3, 8]);
    assert_eq!(y.dims(), &[3, 8]);
    let xv = x.to_vec2::<u32>().unwrap();
    let yv = y.to_vec2::<u32>().unwrap();
    for r in 0..3 {
        for j in 0..8 {
            assert_eq!(yv[r][j], xv[r][j] + 1);
        }
    }
}

#[test]
fn scoring_window_cases() {
    assert_eq!(scoring_window(&[], 4), None);
    assert_eq!(scoring_window(&[5], 4), None);
    assert_eq!(scoring_window(&[1, 2], 4), Some((vec![1], vec![2])));
    assert_eq!(scoring_window(&[1, 2, 3, 4, 5, 6, 7], 3), Some((vec![1, 2, 3], vec![2, 3, 4])));
    assert_eq!(scoring_window(&[1, 2, 3, 4], 3), Some((vec![1, 2, 3], vec![2, 3, 4])));
}

#[test]
fn line_scoring_uses_the_tokenizer() {
    let tok = CharTokenizer::from_corpus("abc");
    assert_eq!(line_scoring_window(&tok, "cab", 48), Some((vec![2, 0], vec![0, 1])));
    assert_eq!(line_scoring_window(&tok, "a", 48), None);
}

#[test]
fn reporting_steps() {
    assert!(should_report(0, 1500));
    assert!(should_report(500, 1500));
    assert!(!should_report(501, 1500));
    assert!(should_report(1499, 1500));
    assert!(should_report(0, 1));
    assert!(!should_report(7, 9));
}

#[test]
fn initialisation_rules() {
    assert_eq!(init_rule("block0.ff1.bias"), InitRule::Zeros);
    assert_eq!(init_rule("block0.ln1.bias"), InitRule::Zeros);
    assert_eq!(init_rule("block0.ln1.weight"), InitRule::Ones);
    assert_eq!(init_rule("ln_f.weight"), InitRule::Ones);
    assert_eq!(init_rule("head.weight"), InitRule::Uniform);
    assert_eq!(init_rule("tok_emb.weight"), InitRule::Uniform);
}

#[test]
fn causal_mask_never_looks_ahead() {
    let m = causal_mask_allowed(3);
    assert_eq!(m, vec![true, false, false, true, true, false, true, true, true]);
    assert_eq!(causal_mask_allowed(0), Vec::<bool>::new());
}

#[test]
fn config_is_plain_data() {
    let cfg = Config { vocab_size: 40, block_size: 48, n_embd: 48, n_head: 4, n_layer: 1 };
    let copy = cfg;
    assert_eq!(copy.block_size, 48);
    assert_eq!(cfg.clone().vocab_size, 40);
}

#[test]
fn empty_batch_needs_no_data() {
    let (xs, ys) = sample_windows(&[1], 0, 5);
    assert!(xs.is_empty() && ys.is_empty());
    let (x, y) = sample_batch(&[], 0, 4, &Device::Cpu).unwrap();
    assert_eq!(x.dims(), &[0, 4]);
    assert_eq!(y.dims(), &[0, 4]);
}

#[test]
fn weights_are_visited_in_name_order() {
    let names = ["ln_f.weight", "block0.ln1.bias", "head.weight", "block0.ff1.bias", "Z", "é", "block0"];
    let order = init_visit_order(&names);
    let mut expected: Vec<String> = names.iter().map(|s| s.to_string()).collect();
    expected.sort();
    assert_eq!(order, expected.iter().map(|s| s.as_str()).collect::<Vec<_>>());
    assert_eq!(init_visit_order(&[]), Vec::<&str>::new());
    assert_eq!(init_visit_order(&["b", "a", "b"]), vec!["a", "b", "b"]);
}

#[test]
fn windows_at_given_starts() {
    let data: Vec<u32> = (10..20).collect();
    let (xs, ys) = windows_at(&data, &[0, 3, 7], 2);
    assert_eq!(xs, vec![10, 11, 13, 14, 17, 18]);
    assert_eq!(ys, vec![11, 12, 14, 15, 18, 19]);
    let (xs, ys) = windows_at(&data, &[], 4);
    assert!(xs.is_empty() && ys.is_empty());
}

#[test]
fn training_batch_is_thirty_two_windows_on_cpu() {
    let data: Vec<u32> = (0..100).collect();
    let cfg = Config { vocab_size: 100, block_size: 6, n_embd: 8, n_head: 2, n_layer: 1 };
    let (x, y) = training_batch(&data, &cfg).unwrap();
    assert_eq!(TRAINING_BATCH, 32);
    assert_eq!(x.dims(), &[32, 6]);
    assert_eq!(y.dims(), &[32, 6]);
    let xv = x.to_vec2::<u32>().unwrap();
    for row in xv {
        for j in 1..6 {
            assert_eq!(row[j], row[0] + j as u32);
        }
    }
}
