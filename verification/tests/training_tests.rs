use nerv::config::{vid_list, RunNaming};
use nerv::loss::{LossSpec, LossTerm};
use nerv::pruning::{is_prunable, prunable_param_names, sparsity_counts};
use nerv::quantize::{quant_axis_for, symbol_frequencies, QuantAxis};
use nerv::schedule::{EvalSchedule, TrainSchedule};
use nerv::scheduler::LrSchedule;

#[test]
fn loss_names() {
    let l = LossSpec::parse("Fusion6").unwrap();
    assert_eq!((l.first, l.first_tenths, l.second, l.second_tenths), (LossTerm::L1, 7, LossTerm::Ssim, 3));
    let l = LossSpec::parse("L2").unwrap();
    assert_eq!((l.first, l.first_tenths, l.second_tenths), (LossTerm::Mse, 10, 0));
    let l = LossSpec::parse("Fusion12").unwrap();
    assert_eq!((l.first, l.first_tenths, l.second, l.second_tenths), (LossTerm::L1, 8, LossTerm::MsSsim, 2));
    let l = LossSpec::parse("Fusion7").unwrap();
    assert_eq!((l.first, l.first_tenths, l.second, l.second_tenths), (LossTerm::Mse, 7, LossTerm::L1, 3));
    assert!(LossSpec::parse("Fusion13").is_none());
    assert!(LossSpec::parse("l2").is_none());
}

#[test]
fn every_loss_weights_sum_to_one() {
    let mut names = vec!["L2".to_string(), "L1".to_string(), "SSIM".to_string()];
    for k in 1..=12 {
        names.push(format!("Fusion{}", k));
    }
    for n in names {
        let l = LossSpec::parse(&n).unwrap();
        assert_eq!(l.first_tenths + l.second_tenths, 10, "{}", n);
    }
}

#[test]
fn lr_schedules() {
    assert_eq!(LrSchedule::parse("cosine"), Some(LrSchedule::Cosine));
    assert_eq!(LrSchedule::parse("step"), Some(LrSchedule::Step));
    assert_eq!(LrSchedule::parse("const"), Some(LrSchedule::Constant));
    assert_eq!(LrSchedule::parse("plateau"), Some(LrSchedule::Constant));
    assert_eq!(LrSchedule::parse("linear"), None);
}

#[test]
fn prunable_parameters() {
    assert!(is_prunable("stem.0.weight"));
    assert!(is_prunable("layers.3.conv.conv.weight"));
    assert!(is_prunable("layers.12.conv.conv.weight"));
    assert!(!is_prunable("layers.0.conv.up_scale.weight"));
    assert!(!is_prunable("layers.x.conv.conv.weight"));
    assert!(!is_prunable("layers..conv.conv.weight"));
    assert!(!is_prunable("layers.0.conv.conv.weight.extra"));
    assert!(!is_prunable("layers.3.conv.conv.bias"));
    assert!(!is_prunable("head_layers.4.weight"));
    assert!(!is_prunable("xlayers.3.conv.weight"));
    let names: Vec<String> = ["stem.0.weight", "stem.0.bias", "layers.0.conv.conv.weight", "head_layers.0.weight", "stem.2.weight"]
        .iter()
        .map(|s| s.to_string())
        .collect();
    assert_eq!(prunable_param_names(&names), vec!["stem.0.weight", "layers.0.conv.conv.weight", "stem.2.weight"]);
}

#[test]
fn sparsity_sums() {
    assert_eq!(sparsity_counts(&[(100, 40), (50, 10)]), Some((150, 50)));
    assert_eq!(sparsity_counts(&[]), Some((0, 0)));
    assert_eq!(sparsity_counts(&[(i64::MAX, 0), (1, 0)]), None);
}

#[test]
fn quantisation_axes() {
    assert_eq!(QuantAxis::from_axis(-1), Some(QuantAxis::PerTensor));
    assert_eq!(QuantAxis::from_axis(0), Some(QuantAxis::PerRow));
    assert_eq!(QuantAxis::from_axis(1), Some(QuantAxis::PerColumn));
    assert_eq!(QuantAxis::from_axis(2), None);
    assert_eq!(quant_axis_for("stem.0.weight", 2, 0), 0);
    assert_eq!(quant_axis_for("layers.0.conv.conv.weight", 4, 1), 1);
    assert_eq!(quant_axis_for("stem.0.bias", 2, 0), -1);
    assert_eq!(quant_axis_for("layers.0.norm.weight", 1, 0), -1);
}

#[test]
fn frequencies_of_symbols() {
    let f = symbol_frequencies(&vec![3, -1, 3, 255, 3, -1]);
    assert_eq!(f.len(), 3);
    assert_eq!(f[&3], 3);
    assert_eq!(f[&-1], 2);
    assert_eq!(f[&255], 1);
    assert_eq!(f.values().sum::<usize>(), 6);
    assert!(symbol_frequencies(&vec![]).is_empty());
}

#[test]
fn chosen_videos() {
    assert_eq!(vid_list(&[-1]), None);
    assert_eq!(vid_list(&[0, 4, 2]), Some(vec![0, 4, 2]));
    assert_eq!(vid_list(&[-1, 3]), Some(vec![usize::MAX, 3]));
    assert_eq!(vid_list(&[]), Some(vec![]));
}

fn default_naming() -> RunNaming {
    RunNaming {
        dataset: "UVG".to_string(),
        embed: "1.25_80".to_string(),
        stem_dim_num: "1024_1".to_string(),
        fc_hw_dim: "9_16_128".to_string(),
        expansion: format!("{}", 8.0f64),
        reduction: 2,
        lower_width: 32,
        num_blocks: 1,
        cycles: 1,
        frame_gap: 1,
        epochs: 150,
        warmup_epochs: (0.2f64 * 150.0) as i64,
        batch_size: 1,
        conv_type: "conv".to_string(),
        lr: format!("{}", 0.001f64),
        lr_type: "cosine".to_string(),
        loss_type: "L2".to_string(),
        norm: "none".to_string(),
        strides: vec![5, 3, 2, 2, 2],
        single_res: false,
        lw: format!("{}", 1.0f64),
        eval_only: false,
        pruning: false,
        prune_ratio: format!("{}", 1.0f64),
        prune_steps: vec![format!("{}", 0.0f64)],
        act: "gelu".to_string(),
        suffix: "".to_string(),
        debug: false,
        outf: "unify".to_string(),
    }
}

#[test]
fn experiment_name_for_defaults() {
    let n = default_naming();
    assert_eq!(
        n.exp_id(),
        "UVG/embed1.25_80_1024_1_fc_9_16_128__exp8_reduce2_low32_blk1_cycle1_gap1_e150_warm30_b1_conv_lr0.001_cosine_L2_Strd5,3,2,2,2__lw1_multiRes_actgelu_"
    );
    assert_eq!(n.output_dir(), format!("output/unify/{}", n.exp_id()));
}

#[test]
fn experiment_name_with_pruning_and_norm() {
    let mut n = default_naming();
    n.pruning = true;
    n.prune_ratio = "0.4".to_string();
    n.prune_steps = vec!["0.1".to_string(), "0.5".to_string()];
    n.norm = "bn".to_string();
    n.single_res = true;
    n.debug = true;
    let id = n.exp_id();
    assert!(id.ends_with("_cosine_L2bn_Strd5,3,2,2,2_SinRes_Prune0.4_0.1,0.5_actgelu_"), "{}", id);
    assert_eq!(n.output_dir(), format!("output/debug/{}", id));
    n.eval_only = true;
    let id = n.exp_id();
    assert!(id.ends_with("_cosine_L2bn_Strd5,3,2,2,2_SinRes_eval_actgelu_"), "{}", id);
}

#[test]
fn training_decisions() {
    let s = TrainSchedule {
        epochs: 300,
        cycles: 2,
        eval_freq: 50,
        print_freq: 50,
        debug: false,
        prune_net: true,
        prune_step_epochs: vec![0, 150],
    };
    assert_eq!(s.total_epochs(), 600);
    assert!(s.prunes_at(150));
    assert!(!s.prunes_at(151));
    assert_eq!(s.effective_epoch(0), 0);
    assert_eq!(s.effective_epoch(450), 150);
    assert_eq!(s.effective_epoch(301), s.effective_epoch(1));
    assert!(!s.stops_early(11));
    assert!(s.logs_step(100, 132));
    assert!(s.logs_step(131, 132));
    assert!(!s.logs_step(130, 132));
    assert!(s.validates_after(49, 600));
    assert!(!s.validates_after(50, 600));
    assert!(s.validates_after(591, 600));
    assert!(!s.validates_after(590, 600));
    // never more than `eval_freq` epochs in a row without validation
    for first in 0..550 {
        assert!((first..first + 50).any(|e| s.validates_after(e, 600)));
    }
    let d = TrainSchedule { debug: true, prune_net: false, ..s };
    assert!(!d.prunes_at(150));
    assert!(d.stops_early(11));
    assert!(!d.stops_early(10));
}

#[test]
fn evaluation_decisions() {
    let e = EvalSchedule { print_freq: 50, debug: false, eval_fps: true, batch_size: 4, quant_bit: 8 };
    assert_eq!(e.forward_passes(), 10);
    assert!(e.quantizes());
    assert!(e.logs_step(0));
    assert!(!e.logs_step(7));
    assert_eq!(e.dump_indices(3, 4), vec![12, 13, 14, 15]);
    assert_eq!(e.dump_indices(3, 2), vec![12, 13]);
    let e = EvalSchedule { eval_fps: false, quant_bit: -1, debug: true, ..e };
    assert_eq!(e.forward_passes(), 1);
    assert!(!e.quantizes());
    assert!(e.stops_early(11));
}
