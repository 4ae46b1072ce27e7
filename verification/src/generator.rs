use vstd::prelude::*;

use crate::layers::{
    activation_named, block_plan, conv_scale, fits_i64, mlp_layers, Activation, Mlp, NeRVBlock,
};
use crate::text::{all_fields_parse, parse_i64_list, split_fields, parse_i64_spec};

verus! {

/// The numbers that a `_`-separated list such as `"9_16_128"` writes.
pub open spec fn dim_list(s: Seq<char>) -> Seq<i64> {
    split_fields(s, '_').map_values(|f: Seq<char>| parse_i64_spec(f).unwrap())
}

/// Every piece of the `_`-separated list `s` is an `i64`.
pub open spec fn dim_list_parses(s: Seq<char>) -> bool {
    all_fields_parse(split_fields(s, '_'))
}

/// Parses a `_`-separated list of integers such as `"9_16_128"`; `None` when a piece is not an `i64`.
pub fn parse_dim_list(s: &str) -> (r: Option<Vec<i64>>)
    ensures
        r is Some <==> dim_list_parses(s@),
        r matches Some(v) ==> v@ == dim_list(s@),
{
    let r = parse_i64_list(s, '_');
    proof {
        if r is Some {
            let v = r->0;
            assert(v@ =~= dim_list(s@));
        }
    }
    r
}

/// The rule by which the channel width evolves from stage to stage.
pub struct WidthRule {
    /// The upsampling factor of each stage.
    pub strides: Seq<i64>,
    /// The width that the stem's output is reshaped to.
    pub fc_dim: i64,
    /// The width of the first stage.
    pub first: i64,
    /// How many blocks each stage has.
    pub blocks: i64,
    /// The divisor of the width at a stage whose stride is not 1.
    pub reduction: i64,
    /// The least width of a stage after the first.
    pub lower: i64,
}

/// The width of a later stage: the previous width divided (truncating) by the reduction,
/// unless the stride is 1, and at least `lower`; `None` where the division fails.
pub open spec fn reduced_width(ngf: i64, stride: i64, reduction: i64, lower: i64) -> Option<i64> {
    let divisor: i64 = if stride == 1 { 1 } else { reduction };
    match ngf.checked_div(divisor) {
        Some(q) => Some(if q > lower { q } else { lower }),
        None => None,
    }
}

impl WidthRule {
    /// The width that stage `i` widens to, given the width before it.
    pub open spec fn stage_width(self, i: int, before: i64) -> Option<i64> {
        if i == 0 {
            Some(self.first)
        } else {
            reduced_width(before, self.strides[i], self.reduction, self.lower)
        }
    }

    /// The width after the first `n` stages; `None` where a division fails on the way.
    /// A stage without blocks leaves the width unchanged.
    pub open spec fn width_after(self, n: nat) -> Option<i64>
        decreases n,
    {
        if n == 0 {
            Some(self.fc_dim)
        } else {
            match self.width_after((n - 1) as nat) {
                Some(before) => match self.stage_width(n - 1, before) {
                    Some(w) => Some(if self.blocks >= 1 { w } else { before }),
                    None => None,
                },
                None => None,
            }
        }
    }

    /// The number of blocks in a stage.
    pub open spec fn per_stage(self) -> nat {
        if self.blocks > 0 { self.blocks as nat } else { 0 }
    }

    /// The blocks `(in, out, stride)` of stage `i`: the first widens and upsamples, the rest keep the width.
    pub open spec fn stage_shapes(self, i: int) -> Seq<(i64, i64, i64)> {
        let before = self.width_after(i as nat).unwrap();
        let w = self.stage_width(i, before).unwrap();
        Seq::new(
            self.per_stage(),
            |j: int| if j == 0 { (before, w, self.strides[i]) } else { (w, w, 1i64) },
        )
    }

    /// The shapes of the blocks of the first `n` stages, in order.
    pub open spec fn shapes_upto(self, n: nat) -> Seq<(i64, i64, i64)>
        decreases n,
    {
        if n == 0 {
            Seq::empty()
        } else {
            self.shapes_upto((n - 1) as nat) + self.stage_shapes(n - 1)
        }
    }

    /// The heads (input width of the 1x1 convolution to RGB) that follow the blocks of stage `i`:
    /// none after every block but the last, then the stage's head, which exists in every stage
    /// unless only the last stage emits an image.
    pub open spec fn stage_heads(self, i: int, single_res: bool) -> Seq<Option<i64>> {
        let skipped: nat = if self.blocks > 1 { (self.blocks - 1) as nat } else { 0 };
        let w = self.width_after((i + 1) as nat).unwrap();
        Seq::new(skipped, |j: int| None::<i64>).push(
            if !single_res || i == self.strides.len() - 1 { Some(w) } else { None },
        )
    }

    /// The heads of the first `n` stages, in order.
    pub open spec fn heads_upto(self, n: nat, single_res: bool) -> Seq<Option<i64>>
        decreases n,
    {
        if n == 0 {
            Seq::empty()
        } else {
            self.heads_upto((n - 1) as nat, single_res) + self.stage_heads(n - 1, single_res)
        }
    }

    /// All the block shapes.
    pub open spec fn shapes(self) -> Seq<(i64, i64, i64)> {
        self.shapes_upto(self.strides.len())
    }

    /// All the heads.
    pub open spec fn heads(self, single_res: bool) -> Seq<Option<i64>> {
        self.heads_upto(self.strides.len(), single_res)
    }
}

/// The widths that the stem's linear layers pass through: the embedding, `stem_num` times
/// `stem_dim`, then the number of values that are reshaped to the first feature map.
pub open spec fn stem_dims(embed_length: i64, stem_dim: i64, stem_num: i64, fc_out: i64) -> Seq<i64> {
    seq![embed_length] + Seq::new(
        if stem_num > 0 { stem_num as nat } else { 0 },
        |i: int| stem_dim,
    ) + seq![fc_out]
}

/// The width rule that `Generator::new` follows for the parsed `fc_hw_dim` list `fc`.
pub open spec fn width_rule(fc: Seq<i64>, first: i64, blocks: i64, reduction: i64, strides: Seq<i64>, lower: i64) -> WidthRule {
    WidthRule { strides, fc_dim: fc[2], first, blocks, reduction, lower }
}

/// The number of values that the stem outputs: `fc_h * fc_w * fc_dim`.
pub open spec fn fc_out(fc: Seq<i64>) -> int {
    fc[0] * fc[1] * fc[2]
}

/// The inputs on which building the generator succeeds: both lists parse and are long enough,
/// the stem's output size fits, the activation is known, no width division fails, and every block
/// can be built.
pub open spec fn generator_buildable(
    stem_dim_num: Seq<char>,
    fc_hw_dim: Seq<char>,
    expanded_width: i64,
    num_blocks: i64,
    norm: Seq<char>,
    act: Seq<char>,
    bias: bool,
    reduction: i64,
    conv_type: Seq<char>,
    strides: Seq<i64>,
    lower_width: i64,
) -> bool {
    let fc = dim_list(fc_hw_dim);
    let rule = width_rule(fc, expanded_width, num_blocks, reduction, strides, lower_width);
    &&& dim_list_parses(stem_dim_num)
    &&& dim_list(stem_dim_num).len() >= 2
    &&& dim_list_parses(fc_hw_dim)
    &&& fc.len() >= 3
    &&& fits_i64(fc[0] * fc[1])
    &&& fits_i64(fc_out(fc))
    &&& activation_named(act) is Some
    &&& rule.width_after(strides.len()) is Some
    &&& forall|k: int|
        0 <= k < rule.shapes().len() ==> (#[trigger] block_plan(
            rule.shapes()[k].0,
            rule.shapes()[k].1,
            rule.shapes()[k].2,
            bias,
            norm,
            act,
            conv_type,
        )) is Some
}

/// The network as a plan of layers: the stem, the reshape to `fc_dim x fc_h x fc_w`, the
/// upsampling blocks, and after each block an optional head (the input width of a 1x1
/// convolution to 3 channels) that emits an image.
pub struct Generator {
    pub stem: Mlp,
    pub fc_h: i64,
    pub fc_w: i64,
    pub fc_dim: i64,
    pub layers: Vec<NeRVBlock>,
    pub head_layers: Vec<Option<i64>>,
    pub head_bias: bool,
    pub use_sigmoid: bool,
}

/// `g` is the generator that `Generator::new` builds from these inputs.
pub open spec fn generator_built(
    g: Generator,
    embed_length: i64,
    stem_dim_num: Seq<char>,
    fc_hw_dim: Seq<char>,
    expanded_width: i64,
    num_blocks: i64,
    norm: Seq<char>,
    act: Seq<char>,
    bias: bool,
    reduction: i64,
    conv_type: Seq<char>,
    strides: Seq<i64>,
    single_res: bool,
    lower_width: i64,
    sigmoid: bool,
) -> bool {
    let sd = dim_list(stem_dim_num);
    let fc = dim_list(fc_hw_dim);
    let rule = width_rule(fc, expanded_width, num_blocks, reduction, strides, lower_width);
    &&& g.stem.layers@ == mlp_layers(stem_dims(embed_length, sd[0], sd[1], fc_out(fc) as i64))
    &&& Some(g.stem.act) == activation_named(act)
    &&& g.stem.bias == bias
    &&& g.fc_h == fc[0]
    &&& g.fc_w == fc[1]
    &&& g.fc_dim == fc[2]
    &&& g.layers@.len() == rule.shapes().len()
    &&& forall|k: int|
        0 <= k < g.layers@.len() ==> Some(#[trigger] g.layers@[k]) == block_plan(
            rule.shapes()[k].0,
            rule.shapes()[k].1,
            rule.shapes()[k].2,
            bias,
            norm,
            act,
            conv_type,
        )
    &&& g.head_layers@ == rule.heads(single_res)
    &&& g.head_bias == bias
    &&& g.use_sigmoid == sigmoid
}

/// Once a width division fails, every later width fails too.
pub proof fn lemma_width_failure_persists(rule: WidthRule, m: nat, n: nat)
    requires
        m <= n,
        rule.width_after(m) is None,
    ensures
        rule.width_after(n) is None,
    decreases n,
{
    if m < n {
        lemma_width_failure_persists(rule, m, (n - 1) as nat);
    }
}

/// The blocks of fewer stages are a prefix of the blocks of more stages.
pub proof fn lemma_shapes_prefix(rule: WidthRule, m: nat, n: nat)
    requires
        m <= n,
    ensures
        rule.shapes_upto(m).len() <= rule.shapes_upto(n).len(),
        forall|k: int|
            0 <= k < rule.shapes_upto(m).len() ==> rule.shapes_upto(n)[k] == rule.shapes_upto(m)[k],
    decreases n,
{
    if m < n {
        lemma_shapes_prefix(rule, m, (n - 1) as nat);
    }
}

impl Generator {
    /// Builds the plan of the network, or `None` on the inputs on which building it fails.
    /// `expanded_width` is the width of the first stage, `fc_dim` scaled by the expansion factor.
    pub fn try_new(
        embed_length: i64,
        stem_dim_num: &str,
        fc_hw_dim: &str,
        expanded_width: i64,
        num_blocks: i64,
        norm: &str,
        act: &str,
        bias: bool,
        reduction: i64,
        conv_type: &str,
        stride_list: &[i64],
        single_res: bool,
        lower_width: i64,
        sigmoid: bool,
    ) -> (r: Option<Generator>)
        ensures
            r is Some <==> generator_buildable(
                stem_dim_num@,
                fc_hw_dim@,
                expanded_width,
                num_blocks,
                norm@,
                act@,
                bias,
                reduction,
                conv_type@,
                stride_list@,
                lower_width,
            ),
            r matches Some(g) ==> generator_built(
                g,
                embed_length,
                stem_dim_num@,
                fc_hw_dim@,
                expanded_width,
                num_blocks,
                norm@,
                act@,
                bias,
                reduction,
                conv_type@,
                stride_list@,
                single_res,
                lower_width,
                sigmoid,
            ),
    {
        let stem_parts = match parse_dim_list(stem_dim_num) {
            Some(v) => v,
            None => return None,
        };
        if stem_parts.len() < 2 {
            return None;
        }
        let stem_dim = stem_parts[0];
        let stem_num = stem_parts[1];
        let fc_parts = match parse_dim_list(fc_hw_dim) {
            Some(v) => v,
            None => return None,
        };
        if fc_parts.len() < 3 {
            return None;
        }
        let fc_h = fc_parts[0];
        let fc_w = fc_parts[1];
        let fc_dim = fc_parts[2];
        let fc_hw = match fc_h.checked_mul(fc_w) {
            Some(v) => v,
            None => return None,
        };
        let fc_size = match fc_hw.checked_mul(fc_dim) {
            Some(v) => v,
            None => return None,
        };
        let ghost fc = dim_list(fc_hw_dim@);
        let ghost rule = width_rule(fc, expanded_width, num_blocks, reduction, stride_list@, lower_width);
        let ghost dims = stem_dims(embed_length, stem_dim, stem_num, fc_size);

        let mut mlp_dims: Vec<i64> = Vec::new();
        mlp_dims.push(embed_length);
        let mut c: i64 = 0;
        while c < stem_num
            invariant
                0 <= c,
                stem_num > 0 ==> c <= stem_num,
                stem_num <= 0 ==> c == 0,
                mlp_dims@ == seq![embed_length] + Seq::new(c as nat, |i: int| stem_dim),
            decreases stem_num - c,
        {
            mlp_dims.push(stem_dim);
            c = c + 1;
            assert(mlp_dims@ =~= seq![embed_length] + Seq::new(c as nat, |i: int| stem_dim));
        }
        mlp_dims.push(fc_size);
        assert(mlp_dims@ =~= dims);
        let stem = match Mlp::try_new(mlp_dims.as_slice(), act, bias) {
            Some(m) => m,
            None => return None,
        };

        let mut layers: Vec<NeRVBlock> = Vec::new();
        let mut head_layers: Vec<Option<i64>> = Vec::new();
        let mut ngf: i64 = fc_dim;
        let n_stages = stride_list.len();
        let mut i: usize = 0;
        while i < n_stages
            invariant
                n_stages == stride_list@.len(),
                i <= n_stages,
                rule == width_rule(fc, expanded_width, num_blocks, reduction, stride_list@, lower_width),
                fc == dim_list(fc_hw_dim@),
                fc[2] == fc_dim,
                rule.width_after(i as nat) == Some(ngf),
                activation_named(act@) is Some,
                layers@.len() == rule.shapes_upto(i as nat).len(),
                forall|k: int|
                    0 <= k < layers@.len() ==> Some(#[trigger] layers@[k]) == block_plan(
                        rule.shapes_upto(i as nat)[k].0,
                        rule.shapes_upto(i as nat)[k].1,
                        rule.shapes_upto(i as nat)[k].2,
                        bias,
                        norm@,
                        act@,
                        conv_type@,
                    ),
                head_layers@ == rule.heads_upto(i as nat, single_res),
            decreases n_stages - i,
        {
            let stride = stride_list[i];
            let new_ngf: i64 = if i == 0 {
                expanded_width
            } else {
                let divisor: i64 = if stride == 1 { 1 } else { reduction };
                match ngf.checked_div(divisor) {
                    Some(q) => if q > lower_width { q } else { lower_width },
                    None => {
                        proof {
                            assert(rule.width_after((i + 1) as nat) is None);
                            lemma_width_failure_persists(rule, (i + 1) as nat, n_stages as nat);
                        }
                        return None;
                    },
                }
            };
            assert(rule.stage_width(i as int, ngf) == Some(new_ngf));
            let ghost before = ngf;
            let ghost prefix = rule.shapes_upto(i as nat);
            let ghost stage = rule.stage_shapes(i as int);
            let ghost head_prefix = rule.heads_upto(i as nat, single_res);
            let mut j: i64 = 0;
            while j < num_blocks
                invariant
                    0 <= j,
                    num_blocks > 0 ==> j <= num_blocks,
                    num_blocks <= 0 ==> j == 0,
                    i < n_stages,
                    n_stages == stride_list@.len(),
                    stride == stride_list@[i as int],
                    rule == width_rule(fc, expanded_width, num_blocks, reduction, stride_list@, lower_width),
                    fc == dim_list(fc_hw_dim@),
                    rule.width_after(i as nat) == Some(before),
                    rule.stage_width(i as int, before) == Some(new_ngf),
                    prefix == rule.shapes_upto(i as nat),
                    stage == rule.stage_shapes(i as int),
                    head_prefix == rule.heads_upto(i as nat, single_res),
                    ngf == if j == 0 { before } else { new_ngf },
                    layers@.len() == prefix.len() + j,
                    forall|k: int|
                        0 <= k < layers@.len() ==> Some(#[trigger] layers@[k]) == block_plan(
                            (prefix + stage)[k].0,
                            (prefix + stage)[k].1,
                            (prefix + stage)[k].2,
                            bias,
                            norm@,
                            act@,
                            conv_type@,
                        ),
                    head_layers@ == head_prefix + Seq::new(
                        if j >= 1 && num_blocks >= 1 && j > num_blocks - 1 { (num_blocks - 1) as nat } else { j as nat },
                        |q: int| None::<i64>,
                    ),
                decreases num_blocks - j,
            {
                let effective_stride: i64 = if j == 0 { stride } else { 1 };
                assert(stage[j as int] == (ngf, new_ngf, effective_stride));
                assert((prefix + stage)[prefix.len() + j] == stage[j as int]);
                let block = match NeRVBlock::try_new(
                    ngf,
                    new_ngf,
                    effective_stride,
                    bias,
                    norm,
                    act,
                    conv_type,
                ) {
                    Some(b) => b,
                    None => {
                        proof {
                            lemma_shapes_prefix(rule, (i + 1) as nat, n_stages as nat);
                            assert(rule.shapes_upto((i + 1) as nat) == prefix + stage);
                            let k0 = prefix.len() + j;
                            assert(rule.shapes()[k0] == stage[j as int]);
                            assert(!(block_plan(
                                rule.shapes()[k0].0,
                                rule.shapes()[k0].1,
                                rule.shapes()[k0].2,
                                bias,
                                norm@,
                                act@,
                                conv_type@,
                            ) is Some));
                        }
                        return None;
                    },
                };
                layers.push(block);
                ngf = new_ngf;
                if j < num_blocks - 1 {
                    head_layers.push(None);
                }
                j = j + 1;
                proof {
                    assert forall|k: int| 0 <= k < layers@.len() implies Some(#[trigger] layers@[k]) == block_plan(
                            (prefix + stage)[k].0,
                            (prefix + stage)[k].1,
                            (prefix + stage)[k].2,
                            bias,
                            norm@,
                            act@,
                            conv_type@,
                        ) by {
                        if k < layers@.len() - 1 {
                        }
                    }
                    assert(head_layers@ =~= head_prefix + Seq::new(
                        if j >= 1 && num_blocks >= 1 && j > num_blocks - 1 { (num_blocks - 1) as nat } else { j as nat },
                        |q: int| None::<i64>,
                    ));
                }
            }
            let head: Option<i64> = if single_res {
                if i == n_stages - 1 { Some(ngf) } else { None }
            } else {
                Some(ngf)
            };
            head_layers.push(head);
            i = i + 1;
            proof {
                assert(rule.width_after(i as nat) == Some(ngf));
                assert(rule.shapes_upto(i as nat) == prefix + stage);
                assert(layers@.len() == rule.shapes_upto(i as nat).len());
                assert(head_layers@ =~= rule.heads_upto(i as nat, single_res));
            }
        }
        let g = Generator {
            stem,
            fc_h,
            fc_w,
            fc_dim,
            layers,
            head_layers,
            head_bias: bias,
            use_sigmoid: sigmoid,
        };
        proof {
            assert(fc[0] == fc_h && fc[1] == fc_w);
            assert forall|k: int| 0 <= k < rule.shapes().len() implies (#[trigger] block_plan(
                rule.shapes()[k].0,
                rule.shapes()[k].1,
                rule.shapes()[k].2,
                bias,
                norm@,
                act@,
                conv_type@,
            )) is Some by {
                assert(Some(g.layers@[k]) == block_plan(
                    rule.shapes()[k].0,
                    rule.shapes()[k].1,
                    rule.shapes()[k].2,
                    bias,
                    norm@,
                    act@,
                    conv_type@,
                ));
            }
        }
        Some(g)
    }

    /// Builds the plan of the network; the inputs must be ones on which building succeeds.
    pub fn new(
        embed_length: i64,
        stem_dim_num: &str,
        fc_hw_dim: &str,
        expanded_width: i64,
        num_blocks: i64,
        norm: &str,
        act: &str,
        bias: bool,
        reduction: i64,
        conv_type: &str,
        stride_list: &[i64],
        single_res: bool,
        lower_width: i64,
        sigmoid: bool,
    ) -> (r: Generator)
        requires
            generator_buildable(
                stem_dim_num@,
                fc_hw_dim@,
                expanded_width,
                num_blocks,
                norm@,
                act@,
                bias,
                reduction,
                conv_type@,
                stride_list@,
                lower_width,
            ),
        ensures
            generator_built(
                r,
                embed_length,
                stem_dim_num@,
                fc_hw_dim@,
                expanded_width,
                num_blocks,
                norm@,
                act@,
                bias,
                reduction,
                conv_type@,
                stride_list@,
                single_res,
                lower_width,
                sigmoid,
            ),
    {
        match Generator::try_new(
            embed_length,
            stem_dim_num,
            fc_hw_dim,
            expanded_width,
            num_blocks,
            norm,
            act,
            bias,
            reduction,
            conv_type,
            stride_list,
            single_res,
            lower_width,
            sigmoid,
        ) {
            Some(g) => g,
            None => Generator {
                stem: Mlp { layers: Vec::new(), act: Activation::Relu, bias },
                fc_h: 0,
                fc_w: 0,
                fc_dim: 0,
                layers: Vec::new(),
                head_layers: Vec::new(),
                head_bias: bias,
                use_sigmoid: sigmoid,
            },
        }
    }
}

/// The number of heads that emit an image.
pub open spec fn count_images(heads: Seq<Option<i64>>) -> nat
    decreases heads.len(),
{
    if heads.len() == 0 {
        0
    } else {
        count_images(heads.drop_last()) + if heads.last() is Some { 1nat } else { 0nat }
    }
}

proof fn lemma_count_images_concat(a: Seq<Option<i64>>, b: Seq<Option<i64>>)
    ensures
        count_images(a + b) == count_images(a) + count_images(b),
    decreases b.len(),
{
    if b.len() > 0 {
        lemma_count_images_concat(a, b.drop_last());
        assert((a + b).drop_last() =~= a + b.drop_last());
    } else {
        assert(a + b =~= a);
    }
}

proof fn lemma_count_images_none(n: nat)
    ensures
        count_images(Seq::new(n, |q: int| None::<i64>)) == 0,
    decreases n,
{
    if n > 0 {
        lemma_count_images_none((n - 1) as nat);
        assert(Seq::new(n, |q: int| None::<i64>).drop_last() =~= Seq::new((n - 1) as nat, |q: int| None::<i64>));
    }
}

proof fn lemma_heads_and_blocks_same_length(rule: WidthRule, n: nat, single_res: bool)
    requires
        rule.blocks >= 1,
    ensures
        rule.heads_upto(n, single_res).len() == rule.shapes_upto(n).len(),
    decreases n,
{
    if n > 0 {
        lemma_heads_and_blocks_same_length(rule, (n - 1) as nat, single_res);
    }
}

/// With at least one block per stage, there is exactly one head slot per block,
/// so blocks and heads pair up one to one.
pub proof fn lemma_heads_pair_with_blocks(rule: WidthRule, single_res: bool)
    requires
        rule.blocks >= 1,
    ensures
        rule.heads(single_res).len() == rule.shapes().len(),
{
    lemma_heads_and_blocks_same_length(rule, rule.strides.len(), single_res);
}

proof fn lemma_widths_defined_before(rule: WidthRule, m: nat, n: nat)
    requires
        m <= n,
        rule.width_after(n) is Some,
    ensures
        rule.width_after(m) is Some,
{
    if rule.width_after(m) is None {
        lemma_width_failure_persists(rule, m, n);
    }
}

proof fn lemma_chain_upto(rule: WidthRule, n: nat)
    requires
        n <= rule.strides.len(),
        rule.width_after(n) is Some,
    ensures
        forall|k: int|
            0 <= k < rule.shapes_upto(n).len() - 1 ==> (#[trigger] rule.shapes_upto(n)[k]).1 == rule.shapes_upto(
                n,
            )[k + 1].0,
        rule.shapes_upto(n).len() > 0 ==> rule.shapes_upto(n)[0].0 == rule.fc_dim,
        rule.shapes_upto(n).len() > 0 ==> rule.shapes_upto(n).last().1 == rule.width_after(n).unwrap(),
    decreases n,
{
    if n > 0 {
        let m = (n - 1) as nat;
        lemma_widths_defined_before(rule, m, n);
        lemma_chain_upto(rule, m);
        let prefix = rule.shapes_upto(m);
        let stage = rule.stage_shapes(m as int);
        let all = rule.shapes_upto(n);
        assert(all == prefix + stage);
        assert forall|k: int| 0 <= k < all.len() - 1 implies (#[trigger] all[k]).1 == all[k + 1].0 by {
            if k < prefix.len() - 1 {
                assert(all[k] == prefix[k]);
                assert(all[k + 1] == prefix[k + 1]);
            } else if k == prefix.len() - 1 {
                assert(all[k] == prefix.last());
                assert(all[k + 1] == stage[0]);
            } else {
                assert(all[k] == stage[k - prefix.len()]);
                assert(all[k + 1] == stage[k + 1 - prefix.len()]);
            }
        }
        if all.len() > 0 {
            if prefix.len() == 0 {
                assert(all[0] == stage[0]);
                if m > 0 {
                    assert(rule.width_after(m) == Some(rule.fc_dim)) by {
                        lemma_no_blocks_keeps_width(rule, m);
                    }
                }
            } else {
                assert(all[0] == prefix[0]);
            }
            if stage.len() > 0 {
                assert(all.last() == stage.last());
            } else {
                assert(all =~= prefix);
            }
        }
    }
}

proof fn lemma_no_blocks_keeps_width(rule: WidthRule, n: nat)
    requires
        n <= rule.strides.len(),
        rule.width_after(n) is Some,
        rule.shapes_upto(n).len() == 0,
    ensures
        rule.width_after(n) == Some(rule.fc_dim),
    decreases n,
{
    if n > 0 {
        let m = (n - 1) as nat;
        lemma_widths_defined_before(rule, m, n);
        lemma_no_blocks_keeps_width(rule, m);
    }
}

/// Each block takes the width that the block before it produces, and the first block takes
/// the width of the reshaped stem output.
pub proof fn lemma_blocks_chain(rule: WidthRule)
    requires
        rule.width_after(rule.strides.len()) is Some,
    ensures
        forall|k: int|
            0 <= k < rule.shapes().len() - 1 ==> (#[trigger] rule.shapes()[k]).1 == rule.shapes()[k + 1].0,
        rule.shapes().len() > 0 ==> rule.shapes()[0].0 == rule.fc_dim,
{
    lemma_chain_upto(rule, rule.strides.len());
}

proof fn lemma_heads_follow_upto(rule: WidthRule, n: nat, single_res: bool)
    requires
        rule.blocks >= 1,
        n <= rule.strides.len(),
        rule.width_after(n) is Some,
    ensures
        rule.heads_upto(n, single_res).len() == rule.shapes_upto(n).len(),
        forall|k: int|
            0 <= k < rule.shapes_upto(n).len() && (#[trigger] rule.heads_upto(n, single_res)[k]) is Some
                ==> rule.heads_upto(n, single_res)[k].unwrap() == rule.shapes_upto(n)[k].1,
    decreases n,
{
    lemma_heads_and_blocks_same_length(rule, n, single_res);
    if n > 0 {
        let m = (n - 1) as nat;
        lemma_widths_defined_before(rule, m, n);
        lemma_heads_follow_upto(rule, m, single_res);
        lemma_heads_and_blocks_same_length(rule, m, single_res);
        let hp = rule.heads_upto(m, single_res);
        let hs = rule.stage_heads(m as int, single_res);
        let sp = rule.shapes_upto(m);
        let ss = rule.stage_shapes(m as int);
        assert(rule.heads_upto(n, single_res) == hp + hs);
        assert(rule.shapes_upto(n) == sp + ss);
        assert forall|k: int|
            0 <= k < rule.shapes_upto(n).len() && (#[trigger] rule.heads_upto(n, single_res)[k]) is Some
                implies rule.heads_upto(n, single_res)[k].unwrap() == rule.shapes_upto(n)[k].1 by {
            if k < sp.len() {
                assert(rule.heads_upto(n, single_res)[k] == hp[k]);
                assert(rule.shapes_upto(n)[k] == sp[k]);
            } else {
                let j = k - sp.len();
                assert(rule.heads_upto(n, single_res)[k] == hs[j]);
                assert(rule.shapes_upto(n)[k] == ss[j]);
                assert(j == rule.blocks - 1);
            }
        }
    }
}

/// Every head reads the width that the block it follows produces.
pub proof fn lemma_heads_follow_blocks(rule: WidthRule, single_res: bool)
    requires
        rule.blocks >= 1,
        rule.width_after(rule.strides.len()) is Some,
    ensures
        forall|k: int|
            0 <= k < rule.shapes().len() && (#[trigger] rule.heads(single_res)[k]) is Some
                ==> rule.heads(single_res)[k].unwrap() == rule.shapes()[k].1,
{
    lemma_heads_follow_upto(rule, rule.strides.len(), single_res);
}

proof fn lemma_count_upto(rule: WidthRule, n: nat, single_res: bool)
    requires
        n <= rule.strides.len(),
    ensures
        count_images(rule.heads_upto(n, single_res)) == if !single_res {
            n
        } else if n == rule.strides.len() && n >= 1 {
            1nat
        } else {
            0nat
        },
    decreases n,
{
    if n > 0 {
        let m = (n - 1) as nat;
        lemma_count_upto(rule, m, single_res);
        let hs = rule.stage_heads(m as int, single_res);
        let skipped: nat = if rule.blocks > 1 { (rule.blocks - 1) as nat } else { 0 };
        lemma_count_images_concat(rule.heads_upto(m, single_res), hs);
        lemma_count_images_none(skipped);
        assert(hs.drop_last() =~= Seq::new(skipped, |q: int| None::<i64>));
    }
}

/// The network emits one image per stage, or, with `single_res`, only the image of the last stage.
pub proof fn lemma_image_count(rule: WidthRule, single_res: bool)
    ensures
        count_images(rule.heads(single_res)) == if !single_res {
            rule.strides.len()
        } else if rule.strides.len() >= 1 {
            1nat
        } else {
            0nat
        },
{
    lemma_count_upto(rule, rule.strides.len(), single_res);
}

/// A built generator pairs every block with one head slot (given at least one block per stage),
/// and emits one image per stage, or only the last stage's image with `single_res`.
pub proof fn lemma_generator_outputs(
    g: Generator,
    embed_length: i64,
    stem_dim_num: Seq<char>,
    fc_hw_dim: Seq<char>,
    expanded_width: i64,
    num_blocks: i64,
    norm: Seq<char>,
    act: Seq<char>,
    bias: bool,
    reduction: i64,
    conv_type: Seq<char>,
    strides: Seq<i64>,
    single_res: bool,
    lower_width: i64,
    sigmoid: bool,
)
    requires
        generator_built(
            g,
            embed_length,
            stem_dim_num,
            fc_hw_dim,
            expanded_width,
            num_blocks,
            norm,
            act,
            bias,
            reduction,
            conv_type,
            strides,
            single_res,
            lower_width,
            sigmoid,
        ),
    ensures
        num_blocks >= 1 ==> g.head_layers@.len() == g.layers@.len(),
        count_images(g.head_layers@) == if !single_res {
            strides.len()
        } else if strides.len() >= 1 {
            1nat
        } else {
            0nat
        },
{
    let rule = width_rule(dim_list(fc_hw_dim), expanded_width, num_blocks, reduction, strides, lower_width);
    lemma_image_count(rule, single_res);
    if num_blocks >= 1 {
        lemma_heads_pair_with_blocks(rule, single_res);
    }
}

/// The factor by which the first `k` blocks together enlarge each side of the feature map.
pub open spec fn upscale(layers: Seq<NeRVBlock>, k: nat) -> int
    decreases k,
{
    if k == 0 || k > layers.len() {
        1
    } else {
        upscale(layers, (k - 1) as nat) * conv_scale(layers[k - 1].conv)
    }
}

/// The product of the first `n` strides.
pub open spec fn stride_product(strides: Seq<i64>, n: nat) -> int
    decreases n,
{
    if n == 0 {
        1
    } else {
        stride_product(strides, (n - 1) as nat) * strides[n - 1]
    }
}

proof fn lemma_stage_strides(rule: WidthRule, n: nat)
    requires
        rule.blocks >= 1,
    ensures
        rule.shapes_upto(n).len() == n * rule.blocks,
        forall|k: int|
            0 <= k < n * rule.blocks ==> (#[trigger] rule.shapes_upto(n)[k]).2 == if k % (rule.blocks as int) == 0 {
                rule.strides[k / (rule.blocks as int)]
            } else {
                1i64
            },
    decreases n,
{
    let b = rule.blocks as int;
    if n > 0 {
        let m = (n - 1) as nat;
        lemma_stage_strides(rule, m);
        let prefix = rule.shapes_upto(m);
        let stage = rule.stage_shapes(m as int);
        assert(rule.shapes_upto(n) == prefix + stage);
        assert(n * b == m * b + b) by (nonlinear_arith)
            requires
                n == m + 1,
        ;
        assert forall|k: int| 0 <= k < n * b implies (#[trigger] rule.shapes_upto(n)[k]).2 == if k % b == 0 {
            rule.strides[k / b]
        } else {
            1i64
        } by {
            if k >= m * b {
                let j = k - m * b;
                vstd::arithmetic::div_mod::lemma_fundamental_div_mod_converse(k, b, m as int, j);
                assert(rule.shapes_upto(n)[k] == stage[j]);
            } else {
                assert(rule.shapes_upto(n)[k] == prefix[k]);
            }
        }
    }
}

proof fn lemma_upscale_by_stage(layers: Seq<NeRVBlock>, strides: Seq<i64>, b: int, k: nat)
    requires
        b >= 1,
        k < layers.len(),
        forall|j: int|
            0 <= j < layers.len() ==> conv_scale(#[trigger] layers[j].conv) == if j % b == 0 {
                strides[j / b] as int
            } else {
                1int
            },
    ensures
        upscale(layers, k + 1) == stride_product(strides, (k as int / b + 1) as nat),
    decreases k,
{
    let s = conv_scale(layers[k as int].conv);
    assert(upscale(layers, k + 1) == upscale(layers, k) * s);
    if k == 0 {
        assert(upscale(layers, 0) == 1);
        vstd::arithmetic::div_mod::lemma_fundamental_div_mod_converse(0, b, 0, 0);
        assert(stride_product(strides, 1) == stride_product(strides, 0) * strides[0]);
    } else {
        let p = (k - 1) as nat;
        lemma_upscale_by_stage(layers, strides, b, p);
        vstd::arithmetic::div_mod::lemma_fundamental_div_mod(p as int, b);
        vstd::arithmetic::div_mod::lemma_mod_pos_bound(p as int, b);
        let q = p as int / b;
        let r = p as int % b;
        assert(p == b * q + r);
        if r + 1 == b {
            assert(k == (q + 1) * b + 0) by (nonlinear_arith)
                requires
                    k == p + 1,
                    p == b * q + r,
                    r + 1 == b,
            ;
            vstd::arithmetic::div_mod::lemma_fundamental_div_mod_converse(k as int, b, q + 1, 0);
            assert(stride_product(strides, (q + 2) as nat) == stride_product(strides, (q + 1) as nat) * strides[q + 1]);
        } else {
            assert(k == q * b + (r + 1)) by (nonlinear_arith)
                requires
                    k == p + 1,
                    p == b * q + r,
            ;
            vstd::arithmetic::div_mod::lemma_fundamental_div_mod_converse(k as int, b, q, r + 1);
        }
    }
}

/// Each block enlarges the feature map by the product of the strides of the stages up to and
/// including its own: after block `k`, with `num_blocks` blocks per stage, each side has grown
/// by `strides[0] * ... * strides[k / num_blocks]`, so the image that a head emits after the
/// last block of stage `i` measures `fc_h * P` by `fc_w * P`, with `P` the product of the first
/// `i + 1` strides.
pub proof fn lemma_output_scale(
    g: Generator,
    embed_length: i64,
    stem_dim_num: Seq<char>,
    fc_hw_dim: Seq<char>,
    expanded_width: i64,
    num_blocks: i64,
    norm: Seq<char>,
    act: Seq<char>,
    bias: bool,
    reduction: i64,
    conv_type: Seq<char>,
    strides: Seq<i64>,
    single_res: bool,
    lower_width: i64,
    sigmoid: bool,
)
    requires
        generator_built(
            g,
            embed_length,
            stem_dim_num,
            fc_hw_dim,
            expanded_width,
            num_blocks,
            norm,
            act,
            bias,
            reduction,
            conv_type,
            strides,
            single_res,
            lower_width,
            sigmoid,
        ),
        num_blocks >= 1,
    ensures
        g.layers@.len() == strides.len() * num_blocks,
        forall|k: int|
            0 <= k < g.layers@.len() ==> #[trigger] upscale(g.layers@, (k + 1) as nat) == stride_product(
                strides,
                (k / (num_blocks as int) + 1) as nat,
            ),
{
    let rule = width_rule(dim_list(fc_hw_dim), expanded_width, num_blocks, reduction, strides, lower_width);
    let b = num_blocks as int;
    lemma_stage_strides(rule, strides.len());
    let layers = g.layers@;
    assert forall|j: int| 0 <= j < layers.len() implies conv_scale(#[trigger] layers[j].conv) == if j % b == 0 {
        strides[j / b] as int
    } else {
        1int
    } by {
        assert(Some(layers[j]) == block_plan(
            rule.shapes()[j].0,
            rule.shapes()[j].1,
            rule.shapes()[j].2,
            bias,
            norm,
            act,
            conv_type,
        ));
        assert(rule.shapes()[j] == rule.shapes_upto(strides.len())[j]);
    }
    assert forall|k: int| 0 <= k < layers.len() implies #[trigger] upscale(layers, (k + 1) as nat) == stride_product(
        strides,
        (k / b + 1) as nat,
    ) by {
        lemma_upscale_by_stage(layers, strides, b, k as nat);
    }
}

/// The stem of a built generator: with `stem_dim_num = "<d>_<k>"`, it has `k + 1` linear layers
/// (one when `k` is not positive); the first reads the embedding, every hidden width is `d`, and
/// the last writes `fc_h * fc_w * fc_dim` values.
pub proof fn lemma_stem_layers(
    g: Generator,
    embed_length: i64,
    stem_dim_num: Seq<char>,
    fc_hw_dim: Seq<char>,
    expanded_width: i64,
    num_blocks: i64,
    norm: Seq<char>,
    act: Seq<char>,
    bias: bool,
    reduction: i64,
    conv_type: Seq<char>,
    strides: Seq<i64>,
    single_res: bool,
    lower_width: i64,
    sigmoid: bool,
)
    requires
        generator_buildable(
            stem_dim_num,
            fc_hw_dim,
            expanded_width,
            num_blocks,
            norm,
            act,
            bias,
            reduction,
            conv_type,
            strides,
            lower_width,
        ),
        generator_built(
            g,
            embed_length,
            stem_dim_num,
            fc_hw_dim,
            expanded_width,
            num_blocks,
            norm,
            act,
            bias,
            reduction,
            conv_type,
            strides,
            single_res,
            lower_width,
            sigmoid,
        ),
    ensures
        ({
            let d = dim_list(stem_dim_num)[0];
            let k = dim_list(stem_dim_num)[1];
            let hidden: int = if k > 0 { k as int } else { 0 };
            let fc = dim_list(fc_hw_dim);
            let layers = g.stem.layers@;
            &&& layers.len() == hidden + 1
            &&& layers[0].0 == embed_length
            &&& forall|i: int| 0 <= i < hidden ==> (#[trigger] layers[i]).1 == d
            &&& forall|i: int| 1 <= i <= hidden ==> (#[trigger] layers[i]).0 == d
            &&& layers[hidden].1 == fc[0] * fc[1] * fc[2]
        }),
{
    let d = dim_list(stem_dim_num)[0];
    let k = dim_list(stem_dim_num)[1];
    let hidden: int = if k > 0 { k as int } else { 0 };
    let fc = dim_list(fc_hw_dim);
    let dims = stem_dims(embed_length, d, k, fc_out(fc) as i64);
    assert(dims.len() == hidden + 2);
    assert(dims[0] == embed_length);
    assert(forall|i: int| 1 <= i <= hidden ==> #[trigger] dims[i] == d);
    assert(dims[hidden + 1] == fc_out(fc) as i64);
}

} // verus!
