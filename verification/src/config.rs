use vstd::prelude::*;

use crate::text::{int_text, lemma_int_text_injective, joined, push_int, push_uint, push_joined_ints, push_joined_texts, push_text, same_text, text_to_string};

verus! {

/// The settings that name an experiment. Each real-valued setting is given as the text
/// that `Display` writes for it, and `pruning` tells whether the prune ratio is below one.
pub struct RunNaming {
    pub dataset: String,
    pub embed: String,
    pub stem_dim_num: String,
    pub fc_hw_dim: String,
    pub expansion: String,
    pub reduction: i64,
    pub lower_width: i64,
    pub num_blocks: i64,
    pub cycles: i64,
    pub frame_gap: usize,
    pub epochs: i64,
    pub warmup_epochs: i64,
    pub batch_size: i64,
    pub conv_type: String,
    pub lr: String,
    pub lr_type: String,
    pub loss_type: String,
    pub norm: String,
    pub strides: Vec<i64>,
    pub single_res: bool,
    pub lw: String,
    pub eval_only: bool,
    pub pruning: bool,
    pub prune_ratio: String,
    pub prune_steps: Vec<String>,
    pub act: String,
    pub suffix: String,
    pub debug: bool,
    pub outf: String,
}

/// The part of the name that records pruning, present when pruning and not only evaluating.
#[verifier::opaque]
pub open spec fn prune_part(n: RunNaming) -> Seq<char> {
    if n.pruning && !n.eval_only {
        "_Prune"@ + n.prune_ratio@ + "_"@ + joined(n.prune_steps@.map_values(|v: String| v@), ","@)
    } else {
        Seq::empty()
    }
}

/// The part of the name that records the strides, the resolutions trained and evaluation.
#[verifier::opaque]
pub open spec fn extra_part(n: RunNaming) -> Seq<char> {
    "_Strd"@ + joined(n.strides@.map_values(|v: i64| int_text(v as int)), ","@) + "_"@ + (if n.single_res {
        "Sin"@
    } else {
        "_lw"@ + n.lw@ + "_multi"@
    }) + "Res"@ + (if n.eval_only { "_eval"@ } else { Seq::empty() })
}

/// The normalisation in the name; none is written when it is `"none"`.
#[verifier::opaque]
pub open spec fn norm_part(n: RunNaming) -> Seq<char> {
    if n.norm@ == "none"@ { Seq::empty() } else { n.norm@ }
}

/// The name's part for the data and the stem.
#[verifier::opaque]
pub open spec fn model_part(n: RunNaming) -> Seq<char> {
    n.dataset@ + "/embed"@ + n.embed@ + "_"@ + n.stem_dim_num@ + "_fc_"@ + n.fc_hw_dim@ + "__exp"@ + n.expansion@
}

/// The name's part for the widths and blocks.
#[verifier::opaque]
pub open spec fn blocks_part(n: RunNaming) -> Seq<char> {
    "_reduce"@ + int_text(n.reduction as int) + "_low"@ + int_text(n.lower_width as int) + "_blk"@ + int_text(
        n.num_blocks as int,
    ) + "_cycle"@ + int_text(n.cycles as int)
}

/// The name's part for the length of training.
#[verifier::opaque]
pub open spec fn epochs_part(n: RunNaming) -> Seq<char> {
    "_gap"@ + int_text(n.frame_gap as int) + "_e"@ + int_text(n.epochs as int) + "_warm"@ + int_text(
        n.warmup_epochs as int,
    ) + "_b"@ + int_text(n.batch_size as int)
}

/// The name's part for the convolution, the learning rate and the loss.
#[verifier::opaque]
pub open spec fn training_part(n: RunNaming) -> Seq<char> {
    "_"@ + n.conv_type@ + "_lr"@ + n.lr@ + "_"@ + n.lr_type@ + "_"@ + n.loss_type@
}

/// The name's part for the activation and the suffix.
#[verifier::opaque]
pub open spec fn act_part(n: RunNaming) -> Seq<char> {
    "_act"@ + n.act@ + "_"@ + n.suffix@
}

/// The experiment's name.
pub open spec fn exp_id_text(n: RunNaming) -> Seq<char> {
    model_part(n) + blocks_part(n) + epochs_part(n) + training_part(n) + norm_part(n) + extra_part(n)
        + prune_part(n) + act_part(n)
}

/// The directory of the experiment's outputs.
pub open spec fn output_dir_text(n: RunNaming) -> Seq<char> {
    (if n.debug { "output/debug"@ } else { "output/"@ + n.outf@ }) + "/"@ + exp_id_text(n)
}

impl RunNaming {
    fn push_model_part(&self, out: &mut Vec<char>)
        ensures
            final(out)@ == old(out)@ + model_part(*self),
    {
        reveal(model_part);
        push_text(out, self.dataset.as_str());
        push_text(out, "/embed");
        push_text(out, self.embed.as_str());
        push_text(out, "_");
        push_text(out, self.stem_dim_num.as_str());
        push_text(out, "_fc_");
        push_text(out, self.fc_hw_dim.as_str());
        push_text(out, "__exp");
        push_text(out, self.expansion.as_str());
        assert(out@ =~= old(out)@ + model_part(*self));
    }

    fn push_blocks_part(&self, out: &mut Vec<char>)
        ensures
            final(out)@ == old(out)@ + blocks_part(*self),
    {
        reveal(blocks_part);
        push_text(out, "_reduce");
        push_int(out, self.reduction);
        push_text(out, "_low");
        push_int(out, self.lower_width);
        push_text(out, "_blk");
        push_int(out, self.num_blocks);
        push_text(out, "_cycle");
        push_int(out, self.cycles);
        assert(out@ =~= old(out)@ + blocks_part(*self));
    }

    fn push_epochs_part(&self, out: &mut Vec<char>)
        ensures
            final(out)@ == old(out)@ + epochs_part(*self),
    {
        reveal(epochs_part);
        push_text(out, "_gap");
        push_uint(out, self.frame_gap);
        push_text(out, "_e");
        push_int(out, self.epochs);
        push_text(out, "_warm");
        push_int(out, self.warmup_epochs);
        push_text(out, "_b");
        push_int(out, self.batch_size);
        assert(out@ =~= old(out)@ + epochs_part(*self));
    }

    fn push_training_part(&self, out: &mut Vec<char>)
        ensures
            final(out)@ == old(out)@ + training_part(*self),
    {
        reveal(training_part);
        push_text(out, "_");
        push_text(out, self.conv_type.as_str());
        push_text(out, "_lr");
        push_text(out, self.lr.as_str());
        push_text(out, "_");
        push_text(out, self.lr_type.as_str());
        push_text(out, "_");
        push_text(out, self.loss_type.as_str());
        assert(out@ =~= old(out)@ + training_part(*self));
    }

    fn push_extra_part(&self, out: &mut Vec<char>)
        ensures
            final(out)@ == old(out)@ + extra_part(*self),
    {
        reveal(extra_part);
        push_text(out, "_Strd");
        push_joined_ints(out, self.strides.as_slice(), ",");
        push_text(out, "_");
        if self.single_res {
            push_text(out, "Sin");
        } else {
            push_text(out, "_lw");
            push_text(out, self.lw.as_str());
            push_text(out, "_multi");
        }
        push_text(out, "Res");
        if self.eval_only {
            push_text(out, "_eval");
        }
        assert(out@ =~= old(out)@ + extra_part(*self));
    }

    fn push_prune_part(&self, out: &mut Vec<char>)
        ensures
            final(out)@ == old(out)@ + prune_part(*self),
    {
        reveal(prune_part);
        if self.pruning && !self.eval_only {
            push_text(out, "_Prune");
            push_text(out, self.prune_ratio.as_str());
            push_text(out, "_");
            push_joined_texts(out, &self.prune_steps, ",");
        }
        assert(out@ =~= old(out)@ + prune_part(*self));
    }

    fn push_norm_part(&self, out: &mut Vec<char>)
        ensures
            final(out)@ == old(out)@ + norm_part(*self),
    {
        reveal(norm_part);
        if !same_text(self.norm.as_str(), "none") {
            push_text(out, self.norm.as_str());
        }
        assert(out@ =~= old(out)@ + norm_part(*self));
    }

    fn push_act_part(&self, out: &mut Vec<char>)
        ensures
            final(out)@ == old(out)@ + act_part(*self),
    {
        reveal(act_part);
        push_text(out, "_act");
        push_text(out, self.act.as_str());
        push_text(out, "_");
        push_text(out, self.suffix.as_str());
        assert(out@ =~= old(out)@ + act_part(*self));
    }

    fn push_exp_id(&self, out: &mut Vec<char>)
        ensures
            final(out)@ == old(out)@ + exp_id_text(*self),
    {
        let ghost s0 = out@;
        let ghost n = *self;
        self.push_model_part(out);
        self.push_blocks_part(out);
        assert(out@ =~= s0 + (model_part(n) + blocks_part(n)));
        self.push_epochs_part(out);
        assert(out@ =~= s0 + (model_part(n) + blocks_part(n) + epochs_part(n)));
        self.push_training_part(out);
        assert(out@ =~= s0 + (model_part(n) + blocks_part(n) + epochs_part(n) + training_part(n)));
        self.push_norm_part(out);
        assert(out@ =~= s0 + (model_part(n) + blocks_part(n) + epochs_part(n) + training_part(n)
            + norm_part(n)));
        self.push_extra_part(out);
        assert(out@ =~= s0 + (model_part(n) + blocks_part(n) + epochs_part(n) + training_part(n)
            + norm_part(n) + extra_part(n)));
        self.push_prune_part(out);
        assert(out@ =~= s0 + (model_part(n) + blocks_part(n) + epochs_part(n) + training_part(n)
            + norm_part(n) + extra_part(n) + prune_part(n)));
        self.push_act_part(out);
        assert(out@ =~= s0 + exp_id_text(n));
    }

    /// The experiment's name.
    pub fn exp_id(&self) -> (r: String)
        ensures
            r@ == exp_id_text(*self),
    {
        let mut out: Vec<char> = Vec::new();
        self.push_exp_id(&mut out);
        assert(out@ =~= exp_id_text(*self));
        text_to_string(&out)
    }

    /// The directory of the experiment's outputs: under `output/debug` when debugging, else
    /// under `output/<outf>`, then the experiment's name.
    pub fn output_dir(&self) -> (r: String)
        ensures
            r@ == output_dir_text(*self),
    {
        let mut out: Vec<char> = Vec::new();
        if self.debug {
            push_text(&mut out, "output/debug");
        } else {
            push_text(&mut out, "output/");
            push_text(&mut out, self.outf.as_str());
        }
        push_text(&mut out, "/");
        self.push_exp_id(&mut out);
        assert(out@ =~= output_dir_text(*self));
        text_to_string(&out)
    }
}

/// The chosen frames: none chosen (every frame) when the list is the single value `-1`,
/// otherwise the listed positions, each converted to `usize` as `as` converts it.
pub fn vid_list(vid: &[i64]) -> (r: Option<Vec<usize>>)
    ensures
        (vid@.len() == 1 && vid@[0] == -1) ==> r is None,
        !(vid@.len() == 1 && vid@[0] == -1) ==> (r matches Some(v) && v@ == vid@.map_values(|x: i64| x as usize)),
{
    if vid.len() == 1 && vid[0] == -1 {
        return None;
    }
    let mut out: Vec<usize> = Vec::new();
    let mut i: usize = 0;
    while i < vid.len()
        invariant
            i <= vid@.len(),
            out@ == vid@.take(i as int).map_values(|x: i64| x as usize),
        decreases vid@.len() - i,
    {
        out.push(vid[i] as usize);
        i = i + 1;
        assert(out@ =~= vid@.take(i as int).map_values(|x: i64| x as usize));
    }
    assert(vid@.take(vid@.len() as int) =~= vid@);
    Some(out)
}

/// Each field of the experiment's name is the text of its own setting: the name spells out, in
/// order, the data set, the embedding, the stem, the reshape and the expansion; the reduction,
/// the least width, the blocks per stage and the cycles; the frame gap, the epochs, the warm-up
/// epochs and the batch size; the convolution, the learning rate, its schedule and the loss; the
/// normalisation unless it is `none`; the strides and the resolutions trained; pruning when
/// pruning during training; and the activation and the suffix.
#[verifier::spinoff_prover]
#[verifier::rlimit(60)]
pub proof fn lemma_exp_id_fields(n: RunNaming)
    ensures
        exp_id_text(n) == n.dataset@ + "/embed"@ + n.embed@ + "_"@ + n.stem_dim_num@ + "_fc_"@
            + n.fc_hw_dim@ + "__exp"@ + n.expansion@ + "_reduce"@ + int_text(n.reduction as int)
            + "_low"@ + int_text(n.lower_width as int) + "_blk"@ + int_text(n.num_blocks as int)
            + "_cycle"@ + int_text(n.cycles as int) + "_gap"@ + int_text(n.frame_gap as int) + "_e"@
            + int_text(n.epochs as int) + "_warm"@ + int_text(n.warmup_epochs as int) + "_b"@
            + int_text(n.batch_size as int) + "_"@ + n.conv_type@ + "_lr"@ + n.lr@ + "_"@
            + n.lr_type@ + "_"@ + n.loss_type@ + (if n.norm@ == "none"@ { Seq::empty() } else {
            n.norm@
        }) + "_Strd"@ + joined(n.strides@.map_values(|v: i64| int_text(v as int)), ","@) + "_"@ + (
        if n.single_res {
            "Sin"@
        } else {
            "_lw"@ + n.lw@ + "_multi"@
        }) + "Res"@ + (if n.eval_only { "_eval"@ } else { Seq::empty() }) + (if n.pruning
            && !n.eval_only {
            "_Prune"@ + n.prune_ratio@ + "_"@ + joined(n.prune_steps@.map_values(|v: String| v@), ","@)
        } else {
            Seq::empty()
        }) + "_act"@ + n.act@ + "_"@ + n.suffix@,
{
    let f0 = n.dataset@ + "/embed"@ + n.embed@ + "_"@ + n.stem_dim_num@ + "_fc_"@ + n.fc_hw_dim@ + "__exp"@
        + n.expansion@;
    assert(model_part(n) == f0) by {
        reveal(model_part);
    }
    let f1 = f0 + "_reduce"@ + int_text(n.reduction as int) + "_low"@ + int_text(n.lower_width as int) + "_blk"@
        + int_text(n.num_blocks as int) + "_cycle"@ + int_text(n.cycles as int);
    assert(f0 + blocks_part(n) =~= f1) by {
        reveal(blocks_part);
    }
    let f2 = f1 + "_gap"@ + int_text(n.frame_gap as int) + "_e"@ + int_text(n.epochs as int) + "_warm"@
        + int_text(n.warmup_epochs as int) + "_b"@ + int_text(n.batch_size as int);
    assert(f1 + epochs_part(n) =~= f2) by {
        reveal(epochs_part);
    }
    let f3 = f2 + "_"@ + n.conv_type@ + "_lr"@ + n.lr@ + "_"@ + n.lr_type@ + "_"@ + n.loss_type@;
    assert(f2 + training_part(n) =~= f3) by {
        reveal(training_part);
    }
    let f4 = f3 + (if n.norm@ == "none"@ { Seq::empty() } else { n.norm@ });
    assert(f3 + norm_part(n) == f4) by {
        reveal(norm_part);
    }
    let strd = joined(n.strides@.map_values(|v: i64| int_text(v as int)), ","@);
    let res = if n.single_res { "Sin"@ } else { "_lw"@ + n.lw@ + "_multi"@ };
    let ev = if n.eval_only { "_eval"@ } else { Seq::empty() };
    let f5 = f4 + "_Strd"@ + strd + "_"@ + res + "Res"@ + ev;
    assert(f4 + extra_part(n) =~= f5) by {
        reveal(extra_part);
    }
    let f6 = f5 + (if n.pruning && !n.eval_only {
        "_Prune"@ + n.prune_ratio@ + "_"@ + joined(n.prune_steps@.map_values(|v: String| v@), ","@)
    } else {
        Seq::empty()
    });
    assert(f5 + prune_part(n) == f6) by {
        reveal(prune_part);
    }
    let f7 = f6 + "_act"@ + n.act@ + "_"@ + n.suffix@;
    assert(f6 + act_part(n) =~= f7) by {
        reveal(act_part);
    }
}

proof fn lemma_prefix_keeps_apart(p: Seq<char>, x: Seq<char>, y: Seq<char>)
    requires
        x != y,
    ensures
        p + x != p + y,
{
    if p + x == p + y {
        assert((p + x).len() == p.len() + x.len());
        assert((p + y).len() == p.len() + y.len());
        assert(x =~= (p + x).subrange(p.len() as int, (p.len() + x.len()) as int));
        assert(y =~= (p + y).subrange(p.len() as int, (p.len() + y.len()) as int));
    }
}

proof fn lemma_suffix_keeps_apart(x: Seq<char>, y: Seq<char>, q: Seq<char>)
    requires
        x != y,
    ensures
        x + q != y + q,
{
    if x + q == y + q {
        assert((x + q).len() == x.len() + q.len());
        assert((y + q).len() == y.len() + q.len());
        assert(x =~= (x + q).subrange(0, x.len() as int));
        assert(y =~= (y + q).subrange(0, y.len() as int));
    }
}

/// Names built from parts that agree everywhere but in one part differ.
proof fn lemma_names_apart(a: RunNaming, b: RunNaming)
    requires
        model_part(a) == model_part(b),
        blocks_part(a) != blocks_part(b),
        epochs_part(a) == epochs_part(b),
        training_part(a) == training_part(b),
        norm_part(a) == norm_part(b),
        extra_part(a) == extra_part(b),
        prune_part(a) == prune_part(b),
        act_part(a) == act_part(b),
        a.debug == b.debug,
        a.outf == b.outf,
    ensures
        exp_id_text(a) != exp_id_text(b),
        output_dir_text(a) != output_dir_text(b),
{
    let m = model_part(a);
    lemma_prefix_keeps_apart(m, blocks_part(a), blocks_part(b));
    let x1 = m + blocks_part(a);
    let y1 = m + blocks_part(b);
    lemma_suffix_keeps_apart(x1, y1, epochs_part(a));
    lemma_suffix_keeps_apart(x1 + epochs_part(a), y1 + epochs_part(a), training_part(a));
    let x3 = x1 + epochs_part(a) + training_part(a);
    let y3 = y1 + epochs_part(a) + training_part(a);
    lemma_suffix_keeps_apart(x3, y3, norm_part(a));
    lemma_suffix_keeps_apart(x3 + norm_part(a), y3 + norm_part(a), extra_part(a));
    let x5 = x3 + norm_part(a) + extra_part(a);
    let y5 = y3 + norm_part(a) + extra_part(a);
    lemma_suffix_keeps_apart(x5, y5, prune_part(a));
    lemma_suffix_keeps_apart(x5 + prune_part(a), y5 + prune_part(a), act_part(a));
    let d = (if a.debug { "output/debug"@ } else { "output/"@ + a.outf@ }) + "/"@;
    lemma_prefix_keeps_apart(d, exp_id_text(a), exp_id_text(b));
}

/// Runs that differ only in their number of cycles get different names and different output
/// directories.
pub proof fn lemma_cycles_named_apart(a: RunNaming, b: RunNaming)
    requires
        a.cycles != b.cycles,
        b == (RunNaming { cycles: b.cycles, ..a }),
    ensures
        exp_id_text(a) != exp_id_text(b),
        output_dir_text(a) != output_dir_text(b),
{
    lemma_int_text_injective(a.cycles, b.cycles);
    assert(blocks_part(a) != blocks_part(b)) by {
        reveal(blocks_part);
        let p = "_reduce"@ + int_text(a.reduction as int) + "_low"@ + int_text(a.lower_width as int) + "_blk"@
            + int_text(a.num_blocks as int) + "_cycle"@;
        lemma_prefix_keeps_apart(p, int_text(a.cycles as int), int_text(b.cycles as int));
    }
    lemma_same_other_parts(a, b);
    lemma_names_apart(a, b);
}

/// Runs that differ only in their number of blocks per stage get different names and different
/// output directories.
pub proof fn lemma_blocks_named_apart(a: RunNaming, b: RunNaming)
    requires
        a.num_blocks != b.num_blocks,
        b == (RunNaming { num_blocks: b.num_blocks, ..a }),
    ensures
        exp_id_text(a) != exp_id_text(b),
        output_dir_text(a) != output_dir_text(b),
{
    lemma_int_text_injective(a.num_blocks, b.num_blocks);
    assert(blocks_part(a) != blocks_part(b)) by {
        reveal(blocks_part);
        let p = "_reduce"@ + int_text(a.reduction as int) + "_low"@ + int_text(a.lower_width as int) + "_blk"@;
        let q = "_cycle"@ + int_text(a.cycles as int);
        lemma_prefix_keeps_apart(p, int_text(a.num_blocks as int), int_text(b.num_blocks as int));
        lemma_suffix_keeps_apart(p + int_text(a.num_blocks as int), p + int_text(b.num_blocks as int), "_cycle"@);
        assert(blocks_part(a) =~= p + int_text(a.num_blocks as int) + "_cycle"@ + int_text(a.cycles as int));
        assert(blocks_part(b) =~= p + int_text(b.num_blocks as int) + "_cycle"@ + int_text(a.cycles as int));
        lemma_suffix_keeps_apart(
            p + int_text(a.num_blocks as int) + "_cycle"@,
            p + int_text(b.num_blocks as int) + "_cycle"@,
            int_text(a.cycles as int),
        );
    }
    lemma_same_other_parts(a, b);
    lemma_names_apart(a, b);
}

/// Two namings that agree on every field but the reduction, the least width, the blocks and the
/// cycles agree on every part of the name but the blocks part.
proof fn lemma_same_other_parts(a: RunNaming, b: RunNaming)
    requires
        b == (RunNaming { reduction: b.reduction, lower_width: b.lower_width, num_blocks: b.num_blocks, cycles: b.cycles, ..a }),
    ensures
        model_part(a) == model_part(b),
        epochs_part(a) == epochs_part(b),
        training_part(a) == training_part(b),
        norm_part(a) == norm_part(b),
        extra_part(a) == extra_part(b),
        prune_part(a) == prune_part(b),
        act_part(a) == act_part(b),
        a.debug == b.debug,
        a.outf == b.outf,
{
    assert(model_part(a) == model_part(b)) by {
        reveal(model_part);
    }
    assert(epochs_part(a) == epochs_part(b)) by {
        reveal(epochs_part);
    }
    assert(training_part(a) == training_part(b)) by {
        reveal(training_part);
    }
    assert(norm_part(a) == norm_part(b)) by {
        reveal(norm_part);
    }
    assert(extra_part(a) == extra_part(b)) by {
        reveal(extra_part);
    }
    assert(prune_part(a) == prune_part(b)) by {
        reveal(prune_part);
    }
    assert(act_part(a) == act_part(b)) by {
        reveal(act_part);
    }
}

} // verus!
