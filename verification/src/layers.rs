use vstd::prelude::*;

use crate::text::same_text;

verus! {

/// The nonlinearity that follows each layer.
#[derive(Debug, Clone, Copy, PartialEq, Eq, Structural)]
pub enum Activation {
    Relu,
    Leaky,
    Leaky01,
    Relu6,
    Gelu,
    Sin,
    Swish,
    Softplus,
    Hardswish,
}

/// The name under which each activation is selected.
pub open spec fn activation_name(a: Activation) -> Seq<char> {
    match a {
        Activation::Relu => "relu"@,
        Activation::Leaky => "leaky"@,
        Activation::Leaky01 => "leaky01"@,
        Activation::Relu6 => "relu6"@,
        Activation::Gelu => "gelu"@,
        Activation::Sin => "sin"@,
        Activation::Swish => "swish"@,
        Activation::Softplus => "softplus"@,
        Activation::Hardswish => "hardswish"@,
    }
}

/// The activation selected by the name `s`, if `s` names one.
pub open spec fn activation_named(s: Seq<char>) -> Option<Activation> {
    if s == "relu"@ {
        Some(Activation::Relu)
    } else if s == "leaky"@ {
        Some(Activation::Leaky)
    } else if s == "leaky01"@ {
        Some(Activation::Leaky01)
    } else if s == "relu6"@ {
        Some(Activation::Relu6)
    } else if s == "gelu"@ {
        Some(Activation::Gelu)
    } else if s == "sin"@ {
        Some(Activation::Sin)
    } else if s == "swish"@ {
        Some(Activation::Swish)
    } else if s == "softplus"@ {
        Some(Activation::Softplus)
    } else if s == "hardswish"@ {
        Some(Activation::Hardswish)
    } else {
        None
    }
}

/// Every activation is selected by its own name: the names are pairwise distinct.
pub proof fn lemma_activation_name_selects_it(a: Activation)
    ensures
        activation_named(activation_name(a)) == Some(a),
{
    reveal_strlit("relu");
    reveal_strlit("leaky");
    reveal_strlit("leaky01");
    reveal_strlit("relu6");
    reveal_strlit("gelu");
    reveal_strlit("sin");
    reveal_strlit("swish");
    reveal_strlit("softplus");
    reveal_strlit("hardswish");
    let n = activation_name(a);
    if n != "relu"@ && n != "leaky"@ && n != "leaky01"@ && n != "relu6"@ && n != "gelu"@ && n != "sin"@
        && n != "swish"@ && n != "softplus"@ && n != "hardswish"@ {
        assert(false);
    }
    if a != Activation::Relu {
        assert(n.len() != 4 || n[0] != 'r' || n[3] != 'u');
    }
    if a != Activation::Leaky {
        assert(n.len() != 5 || n[0] != 'l');
    }
    if a != Activation::Leaky01 {
        assert(n.len() != 7);
    }
    if a != Activation::Relu6 {
        assert(n.len() != 5 || n[0] != 'r');
    }
    if a != Activation::Gelu {
        assert(n.len() != 4 || n[0] != 'g');
    }
    if a != Activation::Sin {
        assert(n.len() != 3);
    }
    if a != Activation::Swish {
        assert(n.len() != 5 || n[0] != 's');
    }
    if a != Activation::Softplus {
        assert(n.len() != 8);
    }
    if a != Activation::Hardswish {
        assert(n.len() != 9);
    }
}

impl Activation {
    /// The activation named `s`, or `None` when `s` names none.
    pub fn parse(s: &str) -> (r: Option<Activation>)
        ensures
            r == activation_named(s@),
    {
        if same_text(s, "relu") {
            Some(Activation::Relu)
        } else if same_text(s, "leaky") {
            Some(Activation::Leaky)
        } else if same_text(s, "leaky01") {
            Some(Activation::Leaky01)
        } else if same_text(s, "relu6") {
            Some(Activation::Relu6)
        } else if same_text(s, "gelu") {
            Some(Activation::Gelu)
        } else if same_text(s, "sin") {
            Some(Activation::Sin)
        } else if same_text(s, "swish") {
            Some(Activation::Swish)
        } else if same_text(s, "softplus") {
            Some(Activation::Softplus)
        } else if same_text(s, "hardswish") {
            Some(Activation::Hardswish)
        } else {
            None
        }
    }

    /// The activation named `s`; `s` must name one.
    pub fn from_str(s: &str) -> (r: Activation)
        requires
            activation_named(s@) is Some,
        ensures
            Some(r) == activation_named(s@),
    {
        match Activation::parse(s) {
            Some(a) => a,
            None => Activation::Relu,
        }
    }
}

/// The normalisation that follows the convolution of a block.
#[derive(Debug, Clone, Copy, PartialEq, Eq, Structural)]
pub enum NormLayer {
    Identity,
    BatchNorm { num_features: i64 },
    InstanceNorm,
}

/// The normalisation selected by `norm_type` for `num_features` channels.
pub open spec fn norm_plan(norm_type: Seq<char>, num_features: i64) -> Option<NormLayer> {
    if norm_type == "none"@ {
        Some(NormLayer::Identity)
    } else if norm_type == "bn"@ {
        Some(NormLayer::BatchNorm { num_features })
    } else if norm_type == "in"@ {
        Some(NormLayer::InstanceNorm)
    } else {
        None
    }
}

impl NormLayer {
    /// The normalisation named `norm_type`, or `None` when the name is unknown.
    pub fn try_new(norm_type: &str, num_features: i64) -> (r: Option<NormLayer>)
        ensures
            r == norm_plan(norm_type@, num_features),
    {
        if same_text(norm_type, "none") {
            Some(NormLayer::Identity)
        } else if same_text(norm_type, "bn") {
            Some(NormLayer::BatchNorm { num_features })
        } else if same_text(norm_type, "in") {
            Some(NormLayer::InstanceNorm)
        } else {
            None
        }
    }

    /// The normalisation named `norm_type`; the name must be known.
    pub fn new(norm_type: &str, num_features: i64) -> (r: NormLayer)
        requires
            norm_plan(norm_type@, num_features) is Some,
        ensures
            Some(r) == norm_plan(norm_type@, num_features),
    {
        match NormLayer::try_new(norm_type, num_features) {
            Some(n) => n,
            None => NormLayer::Identity,
        }
    }
}

/// The upsampling convolution of a block, with the shapes of its layers.
#[derive(Debug, Clone, Copy, PartialEq, Eq, Structural)]
pub enum CustomConv {
    /// A 3x3 convolution to `out_channels`, then a pixel shuffle by `pixel_shuffle_factor`.
    Conv {
        in_channels: i64,
        out_channels: i64,
        kernel_size: i64,
        padding: i64,
        bias: bool,
        pixel_shuffle_factor: i64,
    },
    /// A transposed convolution whose kernel and stride are both `stride`.
    Deconv { in_channels: i64, out_channels: i64, stride: i64, bias: bool },
    /// A bilinear upsampling by `stride`, then a convolution.
    Bilinear {
        stride: i64,
        in_channels: i64,
        out_channels: i64,
        kernel_size: i64,
        padding: i64,
        bias: bool,
    },
}

/// `v` is a value of `i64`.
pub open spec fn fits_i64(v: int) -> bool {
    i64::MIN <= v <= i64::MAX
}

/// The convolution selected by `conv_type`; `None` for an unknown name or when
/// a channel or kernel count overflows `i64`.
pub open spec fn conv_plan(conv_type: Seq<char>, ngf: i64, new_ngf: i64, stride: i64, bias: bool) -> Option<
    CustomConv,
> {
    if conv_type == "conv"@ {
        if fits_i64(new_ngf * stride) && fits_i64(new_ngf * stride * stride) {
            Some(
                CustomConv::Conv {
                    in_channels: ngf,
                    out_channels: (new_ngf * stride * stride) as i64,
                    kernel_size: 3,
                    padding: 1,
                    bias,
                    pixel_shuffle_factor: stride,
                },
            )
        } else {
            None
        }
    } else if conv_type == "deconv"@ {
        Some(CustomConv::Deconv { in_channels: ngf, out_channels: new_ngf, stride, bias })
    } else if conv_type == "bilinear"@ {
        if fits_i64(2 * stride) && fits_i64(2 * stride + 1) {
            Some(
                CustomConv::Bilinear {
                    stride,
                    in_channels: ngf,
                    out_channels: new_ngf,
                    kernel_size: (2 * stride + 1) as i64,
                    padding: stride,
                    bias,
                },
            )
        } else {
            None
        }
    } else {
        None
    }
}

/// The factor by which the convolution enlarges each side of its input: the pixel shuffle
/// factor, the transposed convolution's stride (its kernel equals its stride), or the bilinear
/// upsampling factor (the convolution after it keeps the size).
pub open spec fn conv_scale(c: CustomConv) -> int {
    match c {
        CustomConv::Conv { pixel_shuffle_factor, .. } => pixel_shuffle_factor as int,
        CustomConv::Deconv { stride, .. } => stride as int,
        CustomConv::Bilinear { stride, .. } => stride as int,
    }
}

impl CustomConv {
    /// The convolution of a block from `ngf` to `new_ngf` channels that upsamples by `stride`;
    /// `None` where building it would fail.
    pub fn try_new(ngf: i64, new_ngf: i64, stride: i64, bias: bool, conv_type: &str) -> (r: Option<
        CustomConv,
    >)
        ensures
            r == conv_plan(conv_type@, ngf, new_ngf, stride, bias),
    {
        if same_text(conv_type, "conv") {
            match new_ngf.checked_mul(stride) {
                Some(a) => match a.checked_mul(stride) {
                    Some(out_c) => Some(
                        CustomConv::Conv {
                            in_channels: ngf,
                            out_channels: out_c,
                            kernel_size: 3,
                            padding: 1,
                            bias,
                            pixel_shuffle_factor: stride,
                        },
                    ),
                    None => None,
                },
                None => None,
            }
        } else if same_text(conv_type, "deconv") {
            Some(CustomConv::Deconv { in_channels: ngf, out_channels: new_ngf, stride, bias })
        } else if same_text(conv_type, "bilinear") {
            match stride.checked_mul(2) {
                Some(twice) => match twice.checked_add(1) {
                    Some(kernel) => Some(
                        CustomConv::Bilinear {
                            stride,
                            in_channels: ngf,
                            out_channels: new_ngf,
                            kernel_size: kernel,
                            padding: stride,
                            bias,
                        },
                    ),
                    None => None,
                },
                None => None,
            }
        } else {
            None
        }
    }

    /// The convolution of a block; the name must be known and the counts must fit.
    pub fn new(ngf: i64, new_ngf: i64, stride: i64, bias: bool, conv_type: &str) -> (r: CustomConv)
        requires
            conv_plan(conv_type@, ngf, new_ngf, stride, bias) is Some,
        ensures
            Some(r) == conv_plan(conv_type@, ngf, new_ngf, stride, bias),
    {
        match CustomConv::try_new(ngf, new_ngf, stride, bias, conv_type) {
            Some(c) => c,
            None => CustomConv::Deconv { in_channels: ngf, out_channels: new_ngf, stride, bias },
        }
    }
}

/// One upsampling block: convolution, normalisation, activation.
#[derive(Debug, Clone, Copy, PartialEq, Eq, Structural)]
pub struct NeRVBlock {
    pub conv: CustomConv,
    pub norm: NormLayer,
    pub act: Activation,
}

/// The block from `ngf` to `new_ngf` channels; `None` where one of its parts cannot be built.
pub open spec fn block_plan(
    ngf: i64,
    new_ngf: i64,
    stride: i64,
    bias: bool,
    norm: Seq<char>,
    act: Seq<char>,
    conv_type: Seq<char>,
) -> Option<NeRVBlock> {
    match (conv_plan(conv_type, ngf, new_ngf, stride, bias), norm_plan(norm, new_ngf), activation_named(act)) {
        (Some(c), Some(n), Some(a)) => Some(NeRVBlock { conv: c, norm: n, act: a }),
        _ => None,
    }
}

impl NeRVBlock {
    /// The block from `ngf` to `new_ngf` channels, or `None` where a part cannot be built.
    pub fn try_new(
        ngf: i64,
        new_ngf: i64,
        stride: i64,
        bias: bool,
        norm: &str,
        act: &str,
        conv_type: &str,
    ) -> (r: Option<NeRVBlock>)
        ensures
            r == block_plan(ngf, new_ngf, stride, bias, norm@, act@, conv_type@),
    {
        let conv = match CustomConv::try_new(ngf, new_ngf, stride, bias, conv_type) {
            Some(c) => c,
            None => return None,
        };
        let norm_layer = match NormLayer::try_new(norm, new_ngf) {
            Some(n) => n,
            None => return None,
        };
        let activation = match Activation::parse(act) {
            Some(a) => a,
            None => return None,
        };
        Some(NeRVBlock { conv, norm: norm_layer, act: activation })
    }

    /// The block from `ngf` to `new_ngf` channels; every part must be buildable.
    pub fn new(
        ngf: i64,
        new_ngf: i64,
        stride: i64,
        bias: bool,
        norm: &str,
        act: &str,
        conv_type: &str,
    ) -> (r: NeRVBlock)
        requires
            block_plan(ngf, new_ngf, stride, bias, norm@, act@, conv_type@) is Some,
        ensures
            Some(r) == block_plan(ngf, new_ngf, stride, bias, norm@, act@, conv_type@),
    {
        match NeRVBlock::try_new(ngf, new_ngf, stride, bias, norm, act, conv_type) {
            Some(b) => b,
            None => NeRVBlock {
                conv: CustomConv::Deconv { in_channels: ngf, out_channels: new_ngf, stride, bias },
                norm: NormLayer::Identity,
                act: Activation::Relu,
            },
        }
    }
}

/// The linear layers `(in, out)` between consecutive widths of `dims`.
pub open spec fn mlp_layers(dims: Seq<i64>) -> Seq<(i64, i64)> {
    Seq::new((dims.len() - 1) as nat, |i: int| (dims[i], dims[i + 1]))
}

/// The stem: a stack of linear layers, each followed by the activation.
pub struct Mlp {
    pub layers: Vec<(i64, i64)>,
    pub act: Activation,
    pub bias: bool,
}

impl Mlp {
    /// The stem through the widths `dim_list`, or `None` when `act` names no activation.
    pub fn try_new(dim_list: &[i64], act: &str, bias: bool) -> (r: Option<Mlp>)
        requires
            dim_list@.len() >= 1,
        ensures
            match r {
                Some(m) => {
                    &&& activation_named(act@) == Some(m.act)
                    &&& m.layers@ == mlp_layers(dim_list@)
                    &&& m.bias == bias
                },
                None => activation_named(act@) is None,
            },
    {
        let activation = match Activation::parse(act) {
            Some(a) => a,
            None => return None,
        };
        let mut layers: Vec<(i64, i64)> = Vec::new();
        let n = dim_list.len() - 1;
        let mut i: usize = 0;
        while i < n
            invariant
                n == dim_list@.len() - 1,
                i <= n,
                layers@ == mlp_layers(dim_list@).take(i as int),
            decreases n - i,
        {
            layers.push((dim_list[i], dim_list[i + 1]));
            i = i + 1;
            assert(layers@ =~= mlp_layers(dim_list@).take(i as int));
        }
        assert(layers@ =~= mlp_layers(dim_list@));
        Some(Mlp { layers, act: activation, bias })
    }

    /// The stem through the widths `dim_list`; `act` must name an activation.
    pub fn new(dim_list: &[i64], act: &str, bias: bool) -> (r: Mlp)
        requires
            dim_list@.len() >= 1,
            activation_named(act@) is Some,
        ensures
            activation_named(act@) == Some(r.act),
            r.layers@ == mlp_layers(dim_list@),
            r.bias == bias,
    {
        match Mlp::try_new(dim_list, act, bias) {
            Some(m) => m,
            None => Mlp { layers: Vec::new(), act: Activation::Relu, bias },
        }
    }
}

/// The side length of the convolution's output for an input of side `side`, by the usual size
/// rules: a stride-one convolution with kernel `k` and padding `p` gives `side + 2p - k + 1`, a
/// pixel shuffle by `f` multiplies by `f`, a transposed convolution whose kernel and stride are
/// `s` gives `(side - 1) * s + s`, and a bilinear upsampling by `s` multiplies by `s`.
pub open spec fn conv_output_side(c: CustomConv, side: int) -> int {
    match c {
        CustomConv::Conv { kernel_size, padding, pixel_shuffle_factor, .. } => (side + 2 * padding
            - kernel_size + 1) * pixel_shuffle_factor,
        CustomConv::Deconv { stride, .. } => (side - 1) * stride + stride,
        CustomConv::Bilinear { stride, kernel_size, padding, .. } => side * stride + 2 * padding
            - kernel_size + 1,
    }
}

/// The channels the convolution reads.
pub open spec fn conv_input_channels(c: CustomConv) -> int {
    match c {
        CustomConv::Conv { in_channels, .. } => in_channels as int,
        CustomConv::Deconv { in_channels, .. } => in_channels as int,
        CustomConv::Bilinear { in_channels, .. } => in_channels as int,
    }
}

/// The channels the convolution writes: a pixel shuffle by `f` turns `c * f * f` channels into `c`.
pub open spec fn conv_output_channels(c: CustomConv) -> int {
    match c {
        CustomConv::Conv { out_channels, pixel_shuffle_factor, .. } => (out_channels as int) / (
            pixel_shuffle_factor * pixel_shuffle_factor),
        CustomConv::Deconv { out_channels, .. } => out_channels as int,
        CustomConv::Bilinear { out_channels, .. } => out_channels as int,
    }
}

/// Every upsampling convolution, of each kind and for every positive stride, turns an `ngf`-channel
/// map of side `side` into a `new_ngf`-channel map of side `side * stride`: the convolutions keep
/// the size that the upsampling gives.
pub proof fn lemma_conv_geometry(
    conv_type: Seq<char>,
    ngf: i64,
    new_ngf: i64,
    stride: i64,
    bias: bool,
    side: int,
)
    requires
        stride >= 1,
        conv_plan(conv_type, ngf, new_ngf, stride, bias) is Some,
    ensures
        ({
            let c = conv_plan(conv_type, ngf, new_ngf, stride, bias).unwrap();
            &&& conv_output_side(c, side) == side * stride
            &&& conv_input_channels(c) == ngf
            &&& conv_output_channels(c) == new_ngf
        }),
{
    let c = conv_plan(conv_type, ngf, new_ngf, stride, bias).unwrap();
    let s = stride as int;
    match c {
        CustomConv::Conv { out_channels, .. } => {
            assert(out_channels == new_ngf * s * s);
            assert(new_ngf * s * s == (s * s) * new_ngf) by (nonlinear_arith);
            assert(s * s > 0) by (nonlinear_arith)
                requires
                    s >= 1,
            ;
            vstd::arithmetic::div_mod::lemma_div_multiples_vanish(new_ngf as int, s * s);
        },
        CustomConv::Deconv { .. } => {
            assert((side - 1) * s + s == side * s) by (nonlinear_arith);
        },
        CustomConv::Bilinear { .. } => {},
    }
}

} // verus!
