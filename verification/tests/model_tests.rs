use nerv::generator::{parse_dim_list, Generator};
use nerv::layers::{Activation, CustomConv, Mlp, NeRVBlock, NormLayer};

const NAMES: [(&str, Activation); 9] = [
    ("relu", Activation::Relu),
    ("leaky", Activation::Leaky),
    ("leaky01", Activation::Leaky01),
    ("relu6", Activation::Relu6),
    ("gelu", Activation::Gelu),
    ("sin", Activation::Sin),
    ("swish", Activation::Swish),
    ("softplus", Activation::Softplus),
    ("hardswish", Activation::Hardswish),
];

#[test]
fn every_activation_name_selects_its_activation() {
    for (name, act) in NAMES {
        assert_eq!(Activation::parse(name), Some(act));
        assert_eq!(Activation::from_str(name), act);
    }
}

#[test]
fn unknown_activation_is_rejected() {
    assert_eq!(Activation::parse("tanh"), None);
    assert_eq!(Activation::parse("ReLU"), None);
    assert_eq!(Activation::parse(""), None);
}

#[test]
fn norm_layers() {
    assert_eq!(NormLayer::new("none", 64), NormLayer::Identity);
    assert_eq!(NormLayer::new("bn", 64), NormLayer::BatchNorm { num_features: 64 });
    assert_eq!(NormLayer::new("in", 64), NormLayer::InstanceNorm);
    assert_eq!(NormLayer::try_new("ln", 64), None);
}

#[test]
fn conv_shapes() {
    assert_eq!(
        CustomConv::new(128, 64, 2, true, "conv"),
        CustomConv::Conv { in_channels: 128, out_channels: 256, kernel_size: 3, padding: 1, bias: true, pixel_shuffle_factor: 2 }
    );
    assert_eq!(
        CustomConv::new(128, 64, 5, false, "deconv"),
        CustomConv::Deconv { in_channels: 128, out_channels: 64, stride: 5, bias: false }
    );
    assert_eq!(
        CustomConv::new(96, 48, 3, true, "bilinear"),
        CustomConv::Bilinear { stride: 3, in_channels: 96, out_channels: 48, kernel_size: 7, padding: 3, bias: true }
    );
    assert_eq!(CustomConv::try_new(1, 1, 1, true, "pixel"), None);
    assert_eq!(CustomConv::try_new(1, i64::MAX, 2, true, "conv"), None);
    assert_eq!(CustomConv::try_new(1, 1, i64::MAX, true, "bilinear"), None);
}

#[test]
fn block_parts() {
    let b = NeRVBlock::new(128, 64, 2, true, "bn", "swish", "conv");
    assert_eq!(b.norm, NormLayer::BatchNorm { num_features: 64 });
    assert_eq!(b.act, Activation::Swish);
    assert_eq!(NeRVBlock::try_new(128, 64, 2, true, "bn", "swish", "conv2"), None);
    assert_eq!(NeRVBlock::try_new(128, 64, 2, true, "bx", "swish", "conv"), None);
    assert_eq!(NeRVBlock::try_new(128, 64, 2, true, "bn", "swash", "conv"), None);
}

#[test]
fn mlp_layers_between_widths() {
    let m = Mlp::new(&[80, 512, 18432], "gelu", true);
    assert_eq!(m.layers, vec![(80, 512), (512, 18432)]);
    assert_eq!(m.act, Activation::Gelu);
    assert!(m.bias);
    assert!(Mlp::try_new(&[3], "nope", true).is_none());
    assert!(Mlp::new(&[3], "sin", false).layers.is_empty());
}

#[test]
fn dim_lists() {
    assert_eq!(parse_dim_list("9_16_26"), Some(vec![9, 16, 26]));
    assert_eq!(parse_dim_list("512_1"), Some(vec![512, 1]));
    assert_eq!(parse_dim_list("1.25_40"), None);
}

fn bunny_generator(single_res: bool, num_blocks: i64) -> Generator {
    // NeRV-S: --embed 1.25_40 --stem-dim-num 512_1 --fc-hw-dim 9_16_26 --expansion 1
    // --reduction 2 --strides 5 2 2 2 2 --lower-width 96
    Generator::new(80, "512_1", "9_16_26", 26, num_blocks, "none", "swish", true, 2, "conv", &[5, 2, 2, 2, 2], single_res, 96, false)
}

#[test]
fn generator_for_small_bunny_model() {
    let g = bunny_generator(true, 1);
    assert_eq!(g.stem.layers, vec![(80, 512), (512, 9 * 16 * 26)]);
    assert_eq!((g.fc_h, g.fc_w, g.fc_dim), (9, 16, 26));
    let widths: Vec<(i64, i64)> = g
        .layers
        .iter()
        .map(|b| match b.conv {
            CustomConv::Conv { in_channels, out_channels, pixel_shuffle_factor, .. } => {
                (in_channels, out_channels / (pixel_shuffle_factor * pixel_shuffle_factor))
            }
            _ => panic!("conv layers expected"),
        })
        .collect();
    // the first stage keeps the expanded width; later ones halve it but not below 96
    assert_eq!(widths, vec![(26, 26), (26, 96), (96, 96), (96, 96), (96, 96)]);
    assert_eq!(g.head_layers, vec![None, None, None, None, Some(96)]);
    assert!(g.head_bias);
    assert!(!g.use_sigmoid);
}

#[test]
fn generator_multi_resolution_heads() {
    let g = bunny_generator(false, 2);
    assert_eq!(g.layers.len(), 10);
    assert_eq!(g.head_layers.len(), 10);
    let images = g.head_layers.iter().filter(|h| h.is_some()).count();
    assert_eq!(images, 5);
    for (k, h) in g.head_layers.iter().enumerate() {
        assert_eq!(h.is_some(), k % 2 == 1);
    }
    // the second block of each stage keeps the width and does not upsample
    match g.layers[1].conv {
        CustomConv::Conv { in_channels, out_channels, pixel_shuffle_factor, .. } => {
            assert_eq!((in_channels, out_channels, pixel_shuffle_factor), (26, 26, 1));
        }
        _ => panic!("conv layer expected"),
    }
}

#[test]
fn generator_without_blocks_keeps_heads() {
    let g = bunny_generator(false, 0);
    assert!(g.layers.is_empty());
    assert_eq!(g.head_layers, vec![Some(26); 5]);
}

#[test]
fn generator_widening_then_reduction() {
    let g = Generator::new(160, "1024_1", "9_16_128", 1024, 1, "bn", "gelu", true, 2, "deconv", &[5, 3, 1, 2], false, 32, true);
    let widths: Vec<(i64, i64)> = g
        .layers
        .iter()
        .map(|b| match b.conv {
            CustomConv::Deconv { in_channels, out_channels, .. } => (in_channels, out_channels),
            _ => panic!("deconv layers expected"),
        })
        .collect();
    // stride 1 keeps the width: the divisor is 1 there
    assert_eq!(widths, vec![(128, 1024), (1024, 512), (512, 512), (512, 256)]);
    assert_eq!(g.head_layers, vec![Some(1024), Some(512), Some(512), Some(256)]);
    assert!(g.use_sigmoid);
}

#[test]
fn generator_rejections() {
    let ok = |stem: &str, fc: &str, reduction: i64, act: &str, conv: &str, norm: &str| {
        Generator::try_new(80, stem, fc, 26, 1, norm, act, true, reduction, conv, &[5, 2], true, 96, false).is_some()
    };
    assert!(ok("512_1", "9_16_26", 2, "gelu", "conv", "none"));
    assert!(!ok("512", "9_16_26", 2, "gelu", "conv", "none"));
    assert!(!ok("512_1", "9_16", 2, "gelu", "conv", "none"));
    assert!(!ok("512_x", "9_16_26", 2, "gelu", "conv", "none"));
    assert!(!ok("512_1", "9_16_26", 0, "gelu", "conv", "none"));
    assert!(!ok("512_1", "9_16_26", 2, "tanh", "conv", "none"));
    assert!(!ok("512_1", "9_16_26", 2, "gelu", "upconv", "none"));
    assert!(!ok("512_1", "9_16_26", 2, "gelu", "conv", "group"));
    assert!(!ok("512_1", "4294967296_4294967296_2", 2, "gelu", "conv", "none"));
    // a zero reduction only matters where a stride other than 1 divides by it
    assert!(Generator::try_new(80, "512_1", "9_16_26", 26, 1, "none", "gelu", true, 0, "conv", &[5, 1, 1], true, 96, false).is_some());
    // without blocks, neither the norm nor the convolution is looked up
    assert!(Generator::try_new(80, "512_1", "9_16_26", 26, 0, "x", "gelu", true, 2, "y", &[5, 2], true, 96, false).is_some());
}
