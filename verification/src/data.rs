use vstd::prelude::*;

use crate::text::chars_of;
use rand::seq::SliceRandom;

verus! {

broadcast use vstd::seq_lib::group_to_multiset_ensures;

/// Lexicographic order of texts by character code, which is the order in which `String`s sort.
pub open spec fn text_le(a: Seq<char>, b: Seq<char>) -> bool
    decreases a.len(),
{
    if a.len() == 0 {
        true
    } else if b.len() == 0 {
        false
    } else if a[0] != b[0] {
        (a[0] as int) < (b[0] as int)
    } else {
        text_le(a.drop_first(), b.drop_first())
    }
}

pub proof fn lemma_text_le_total(a: Seq<char>, b: Seq<char>)
    ensures
        text_le(a, b) || text_le(b, a),
    decreases a.len(),
{
    if a.len() > 0 && b.len() > 0 && a[0] == b[0] {
        lemma_text_le_total(a.drop_first(), b.drop_first());
    }
}

pub proof fn lemma_text_le_transitive(a: Seq<char>, b: Seq<char>, c: Seq<char>)
    requires
        text_le(a, b),
        text_le(b, c),
    ensures
        text_le(a, c),
    decreases a.len(),
{
    if a.len() > 0 && b.len() > 0 && c.len() > 0 && a[0] == b[0] && b[0] == c[0] {
        lemma_text_le_transitive(a.drop_first(), b.drop_first(), c.drop_first());
    }
}

/// The texts of a vector of strings.
pub open spec fn texts(v: Seq<String>) -> Seq<Seq<char>> {
    v.map_values(|s: String| s@)
}

/// The texts are in ascending order.
pub open spec fn sorted_texts(s: Seq<Seq<char>>) -> bool {
    forall|i: int, j: int| 0 <= i < j < s.len() ==> text_le(#[trigger] s[i], #[trigger] s[j])
}

/// Whether `a` sorts no later than `b`.
fn text_le_exec(a: &Vec<char>, b: &Vec<char>) -> (r: bool)
    ensures
        r == text_le(a@, b@),
{
    let mut k: usize = 0;
    assert(a@.skip(0) =~= a@);
    assert(b@.skip(0) =~= b@);
    while k < a.len() && k < b.len() && a[k] == b[k]
        invariant
            k <= a@.len(),
            k <= b@.len(),
            text_le(a@, b@) == text_le(a@.skip(k as int), b@.skip(k as int)),
        decreases a@.len() - k,
    {
        proof {
            assert(a@.skip(k as int).drop_first() =~= a@.skip(k + 1));
            assert(b@.skip(k as int).drop_first() =~= b@.skip(k + 1));
        }
        k = k + 1;
    }
    if k == a.len() {
        true
    } else if k == b.len() {
        false
    } else {
        a[k] < b[k]
    }
}

/// Sorts file names into ascending order.
fn sort_names(names: &Vec<String>) -> (r: Vec<String>)
    ensures
        sorted_texts(texts(r@)),
        texts(r@).to_multiset() == texts(names@).to_multiset(),
{
    let mut out: Vec<String> = Vec::new();
    let mut i: usize = 0;
    while i < names.len()
        invariant
            i <= names@.len(),
            sorted_texts(texts(out@)),
            texts(out@).to_multiset() == texts(names@).take(i as int).to_multiset(),
        decreases names@.len() - i,
    {
        let x = names[i].clone();
        let xc = chars_of(x.as_str());
        let mut p: usize = 0;
        while p < out.len()
            invariant
                p <= out@.len(),
                xc@ == x@,
                forall|k: int| 0 <= k < p ==> text_le(#[trigger] texts(out@)[k], x@),
            ensures
                p <= out@.len(),
                forall|k: int| 0 <= k < p ==> text_le(#[trigger] texts(out@)[k], x@),
                p < out@.len() ==> !text_le(texts(out@)[p as int], x@),
            decreases out@.len() - p,
        {
            let oc = chars_of(out[p].as_str());
            if !text_le_exec(&oc, &xc) {
                break;
            }
            p = p + 1;
        }
        let ghost before = texts(out@);
        proof {
            assert forall|k: int| p <= k < before.len() implies text_le(x@, #[trigger] before[k]) by {
                lemma_text_le_total(before[p as int], x@);
                if k > p {
                    lemma_text_le_transitive(x@, before[p as int], before[k]);
                }
            }
        }
        out.insert(p, x);
        proof {
            let after = texts(out@);
            assert(after =~= before.insert(p as int, x@));
            assert forall|a: int, b: int| 0 <= a < b < after.len() implies text_le(
                #[trigger] after[a],
                #[trigger] after[b],
            ) by {
                if a < p && b == p {
                } else if a < p && b > p {
                    assert(after[b] == before[b - 1]);
                } else if a == p {
                    assert(after[b] == before[b - 1]);
                } else if b < p {
                } else {
                    assert(after[a] == before[a - 1]);
                    assert(after[b] == before[b - 1]);
                }
            }
            assert(after.remove(p as int) =~= before);
            assert(after.to_multiset().remove(x@) =~= before.to_multiset());
            assert(after.to_multiset().count(x@) > 0);
            assert(after.to_multiset() =~= before.to_multiset().insert(x@));
            assert(texts(names@).take(i + 1) =~= texts(names@).take(i as int).push(x@));
        }
        i = i + 1;
    }
    assert(texts(names@).take(names@.len() as int) =~= texts(names@));
    out
}

pub proof fn lemma_text_le_antisymmetric(a: Seq<char>, b: Seq<char>)
    requires
        text_le(a, b),
        text_le(b, a),
    ensures
        a == b,
    decreases a.len(),
{
    if a.len() > 0 && b.len() > 0 {
        lemma_text_le_antisymmetric(a.drop_first(), b.drop_first());
        assert(a =~= seq![a[0]] + a.drop_first());
        assert(b =~= seq![b[0]] + b.drop_first());
    } else {
        assert(a =~= b);
    }
}

/// Two ascending orders of the same names are the same sequence: the order of the frames
/// does not depend on the order in which the names were listed.
pub proof fn lemma_sorted_order_unique(a: Seq<Seq<char>>, b: Seq<Seq<char>>)
    requires
        sorted_texts(a),
        sorted_texts(b),
        a.to_multiset() == b.to_multiset(),
    ensures
        a == b,
    decreases a.len(),
{
    assert(a.len() == a.to_multiset().len());
    assert(b.len() == b.to_multiset().len());
    if a.len() > 0 {
        assert(a.to_multiset().count(a[0]) > 0);
        assert(b.contains(a[0]));
        assert(b.to_multiset().count(b[0]) > 0);
        assert(a.contains(b[0]));
        let ia = choose|i: int| 0 <= i < a.len() && a[i] == b[0];
        let ib = choose|i: int| 0 <= i < b.len() && b[i] == a[0];
        if ia > 0 {
            assert(text_le(a[0], a[ia]));
        }
        if ib > 0 {
            assert(text_le(b[0], b[ib]));
        }
        if ia > 0 && ib > 0 {
            lemma_text_le_antisymmetric(a[0], b[0]);
        }
        let ar = a.remove(0);
        let br = b.remove(0);
        assert(ar.to_multiset() == a.to_multiset().remove(a[0]));
        assert(br.to_multiset() == b.to_multiset().remove(b[0]));
        assert(sorted_texts(ar)) by {
            assert forall|i: int, j: int| 0 <= i < j < ar.len() implies text_le(#[trigger] ar[i], #[trigger] ar[j]) by {
                assert(ar[i] == a[i + 1]);
                assert(ar[j] == a[j + 1]);
            }
        }
        assert(sorted_texts(br)) by {
            assert forall|i: int, j: int| 0 <= i < j < br.len() implies text_le(#[trigger] br[i], #[trigger] br[j]) by {
                assert(br[i] == b[i + 1]);
                assert(br[j] == b[j + 1]);
            }
        }
        lemma_sorted_order_unique(ar, br);
        assert(a =~= seq![a[0]] + ar);
        assert(b =~= seq![b[0]] + br);
    } else {
        assert(a =~= b);
    }
}

/// The names in ascending order.
pub open spec fn frame_order(names: Seq<Seq<char>>) -> Seq<Seq<char>> {
    choose|s: Seq<Seq<char>>| sorted_texts(s) && s.to_multiset() == names.to_multiset()
}

/// Sorts file names into ascending order, the order in which frames are numbered.
pub fn sorted_frame_names(names: &Vec<String>) -> (r: Vec<String>)
    ensures
        texts(r@) == frame_order(texts(names@)),
        r@.len() == names@.len(),
{
    let r = sort_names(names);
    proof {
        let s = frame_order(texts(names@));
        assert(sorted_texts(s) && s.to_multiset() == texts(names@).to_multiset());
        lemma_sorted_order_unique(texts(r@), s);
        assert(texts(r@).len() == texts(r@).to_multiset().len());
        assert(texts(names@).len() == texts(names@).to_multiset().len());
    }
    r
}

/// The sample indices `0, 1, ..., n - 1`.
pub open spec fn sample_range(n: nat) -> Seq<usize> {
    Seq::new(n, |i: int| i as usize)
}

/// Where a sample's image is and where it stands among all the frames: its file name, its
/// position in the sorted directory listing, and the number of files listed. The frame index
/// fed to the network is `position / total`.
pub struct FrameRef {
    pub file_name: String,
    pub position: usize,
    pub total: usize,
}

/// The frames of a video, in the order of their file names, optionally restricted to chosen
/// frames, and read every `frame_gap`-th.
pub struct CustomDataSet {
    main_dir: String,
    frame_paths: Vec<String>,
    frame_positions: Vec<usize>,
    total: usize,
    frame_gap: usize,
}

/// What a data set holds.
pub struct DataSetView {
    pub main_dir: Seq<char>,
    pub frame_paths: Seq<Seq<char>>,
    pub frame_positions: Seq<usize>,
    pub total: nat,
    pub frame_gap: nat,
}

impl View for CustomDataSet {
    type V = DataSetView;

    closed spec fn view(&self) -> DataSetView {
        DataSetView {
            main_dir: self.main_dir@,
            frame_paths: texts(self.frame_paths@),
            frame_positions: self.frame_positions@,
            total: self.total as nat,
            frame_gap: self.frame_gap as nat,
        }
    }
}

impl DataSetView {
    /// The number of samples: the kept frames divided by the gap.
    pub open spec fn samples(self) -> nat {
        self.frame_positions.len() / self.frame_gap
    }
}

impl CustomDataSet {
    #[verifier::type_invariant]
    closed spec fn frames_consistent(self) -> bool {
        &&& self.frame_paths@.len() == self.frame_positions@.len()
        &&& forall|k: int| 0 <= k < self.frame_positions@.len() ==> #[trigger] self.frame_positions@[k] < self.total
    }

    /// The data set over the files `names` of the directory `main_dir`: the names sorted, then,
    /// when `vid_list` is given, only the frames at those positions, in that order.
    pub fn new(main_dir: &str, names: &Vec<String>, vid_list: Option<&[usize]>, frame_gap: usize) -> (r: CustomDataSet)
        requires
            vid_list matches Some(vl) ==> forall|i: int| 0 <= i < vl@.len() ==> #[trigger] vl@[i] < names@.len(),
        ensures
            r@.main_dir == main_dir@,
            r@.total == names@.len(),
            r@.frame_gap == frame_gap,
            match vid_list {
                Some(vl) => {
                    &&& r@.frame_positions == vl@
                    &&& r@.frame_paths == vl@.map_values(|i: usize| frame_order(texts(names@))[i as int])
                },
                None => {
                    &&& r@.frame_positions == sample_range(names@.len())
                    &&& r@.frame_paths == frame_order(texts(names@))
                },
            },
    {
        let all = sorted_frame_names(names);
        let total = all.len();
        let ghost order = frame_order(texts(names@));
        let mut frame_paths: Vec<String> = Vec::new();
        let mut frame_positions: Vec<usize> = Vec::new();
        match vid_list {
            Some(vl) => {
                let mut k: usize = 0;
                while k < vl.len()
                    invariant
                        k <= vl@.len(),
                        total == all@.len(),
                        total == names@.len(),
                        texts(all@) == order,
                        forall|i: int| 0 <= i < vl@.len() ==> #[trigger] vl@[i] < names@.len(),
                        frame_positions@ == vl@.take(k as int),
                        texts(frame_paths@) == vl@.take(k as int).map_values(|i: usize| order[i as int]),
                    decreases vl@.len() - k,
                {
                    let i = vl[k];
                    assert(texts(all@)[i as int] == all@[i as int]@);
                    let ghost before = frame_paths@;
                    frame_paths.push(all[i].clone());
                    assert(frame_paths@ == before.push(all@[i as int]));
                    assert(texts(frame_paths@) =~= texts(before).push(order[i as int]));
                    frame_positions.push(i);
                    k = k + 1;
                    assert(frame_positions@ =~= vl@.take(k as int));
                    assert(texts(frame_paths@) =~= vl@.take(k as int).map_values(|i: usize| order[i as int]));
                }
                assert(vl@.take(vl@.len() as int) =~= vl@);
            },
            None => {
                let mut k: usize = 0;
                while k < total
                    invariant
                        k <= total,
                        total == all@.len(),
                        texts(all@) == order,
                        frame_positions@ == sample_range(k as nat),
                        texts(frame_paths@) == order.take(k as int),
                    decreases total - k,
                {
                    assert(texts(all@)[k as int] == all@[k as int]@);
                    let ghost before = frame_paths@;
                    frame_paths.push(all[k].clone());
                    assert(frame_paths@ == before.push(all@[k as int]));
                    assert(texts(frame_paths@) =~= texts(before).push(order[k as int]));
                    frame_positions.push(k);
                    k = k + 1;
                    assert(frame_positions@ =~= sample_range(k as nat));
                    assert(texts(frame_paths@) =~= order.take(k as int));
                }
                assert(order.take(total as int) =~= order);
            },
        }
        CustomDataSet { main_dir: main_dir.to_owned(), frame_paths, frame_positions, total, frame_gap }
    }

    /// The number of samples; the gap must not be zero.
    pub fn len(&self) -> (r: usize)
        requires
            self@.frame_gap > 0,
        ensures
            r == self@.samples(),
    {
        self.frame_positions.len() / self.frame_gap
    }

    /// Whether there is no sample; the gap must not be zero.
    pub fn is_empty(&self) -> (r: bool)
        requires
            self@.frame_gap > 0,
        ensures
            r == (self@.samples() == 0),
    {
        self.len() == 0
    }

    /// Every how many kept frames a sample is read.
    pub fn frame_gap(&self) -> (r: usize)
        ensures
            r == self@.frame_gap,
    {
        self.frame_gap
    }

    /// The number of frames kept, before the gap is applied.
    pub fn frame_count(&self) -> (r: usize)
        ensures
            r == self@.frame_positions.len(),
    {
        self.frame_positions.len()
    }

    /// The directory that holds the frames.
    pub fn main_dir(&self) -> (r: &String)
        ensures
            r@ == self@.main_dir,
    {
        &self.main_dir
    }

    /// Where sample `idx` is: the kept frame `idx * frame_gap`.
    pub fn get(&self, idx: usize) -> (r: FrameRef)
        requires
            idx * self@.frame_gap < self@.frame_positions.len(),
        ensures
            r.file_name@ == self@.frame_paths[idx * self@.frame_gap],
            r.position == self@.frame_positions[idx * self@.frame_gap],
            r.total == self@.total,
    {
        proof {
            use_type_invariant(self);
            let len: usize = self.frame_positions.len();
            assert(idx * self.frame_gap <= usize::MAX) by (nonlinear_arith)
                requires
                    idx * self.frame_gap < len,
            ;
        }
        let valid_idx = idx * self.frame_gap;
        FrameRef {
            file_name: self.frame_paths[valid_idx].clone(),
            position: self.frame_positions[valid_idx],
            total: self.total,
        }
    }
}

/// A sample index below the number of samples addresses a kept frame.
pub proof fn lemma_sample_in_range(idx: nat, kept: nat, gap: nat)
    requires
        gap > 0,
        idx < kept / gap,
    ensures
        idx * gap < kept,
{
    assert(idx * gap < kept) by (nonlinear_arith)
        requires
            gap > 0,
            idx < kept / gap,
    {
        assert(idx + 1 <= kept / gap);
        assert((idx + 1) * gap <= (kept / gap) * gap);
        assert((kept / gap) * gap <= kept);
    }
}

/// Puts the indices into a random order.
/// Calls `rand::seq::SliceRandom::shuffle` with `rand::thread_rng()`; its contract claims only
/// what holds of every outcome: the same indices, each as often as before, in some order.
#[verifier::external_body]
fn shuffled(v: Vec<usize>) -> (r: Vec<usize>)
    ensures
        r@.len() == v@.len(),
        r@.to_multiset() == v@.to_multiset(),
{
    let mut v = v;
    let mut rng = rand::thread_rng();
    v.shuffle(&mut rng);
    v
}

/// The end of the batch that starts at `pos`.
pub open spec fn batch_end(pos: nat, batch_size: nat, len: nat) -> nat {
    if pos + batch_size < len { pos + batch_size } else { len }
}

/// The batches that the loader hands out from position `pos` to the end of an epoch.
pub open spec fn batches_from(indices: Seq<usize>, pos: nat, batch_size: nat) -> Seq<Seq<usize>>
    decreases indices.len() - pos,
{
    if pos >= indices.len() || batch_size == 0 {
        Seq::empty()
    } else {
        let end = batch_end(pos, batch_size, indices.len());
        seq![indices.subrange(pos as int, end as int)] + batches_from(indices, end, batch_size)
    }
}

/// Hands out the samples of a data set in batches, each sample once per epoch.
pub struct DataLoader {
    dataset: CustomDataSet,
    batch_size: usize,
    shuffle: bool,
    indices: Vec<usize>,
    pos: usize,
}

/// What a loader holds: the data set it reads, how many samples that has, the batch size,
/// whether each epoch is shuffled, the order of the samples in this epoch, and how far the
/// epoch has gone.
pub struct LoaderView {
    pub dataset: DataSetView,
    pub samples: nat,
    pub batch_size: nat,
    pub shuffle: bool,
    pub indices: Seq<usize>,
    pub pos: nat,
}

impl View for DataLoader {
    type V = LoaderView;

    closed spec fn view(&self) -> LoaderView {
        LoaderView {
            dataset: self.dataset@,
            samples: self.dataset@.samples(),
            batch_size: self.batch_size as nat,
            shuffle: self.shuffle,
            indices: self.indices@,
            pos: self.pos as nat,
        }
    }
}

impl LoaderView {
    /// What every loader keeps: a non-zero gap, one index per sample in each epoch, each sample
    /// once, in ascending order when the loader does not shuffle, and a position within the epoch.
    pub open spec fn well_formed(self) -> bool {
        &&& self.dataset.frame_gap > 0
        &&& self.samples == self.dataset.samples()
        &&& self.indices.to_multiset() == sample_range(self.samples).to_multiset()
        &&& self.indices.len() == self.samples
        &&& !self.shuffle ==> self.indices == sample_range(self.samples)
        &&& self.pos <= self.indices.len()
    }

    /// The batches that remain in the current epoch.
    pub open spec fn remaining_batches(self) -> Seq<Seq<usize>> {
        batches_from(self.indices, self.pos, self.batch_size)
    }
}

impl DataLoader {
    #[verifier::type_invariant]
    closed spec fn every_sample_once(self) -> bool {
        &&& self.dataset@.frame_gap > 0
        &&& self.indices@.to_multiset() == sample_range(self.dataset@.samples()).to_multiset()
        &&& !self.shuffle ==> self.indices@ == sample_range(self.dataset@.samples())
        &&& self.pos <= self.indices@.len()
    }

    proof fn lemma_view_well_formed(&self)
        requires
            self.every_sample_once(),
        ensures
            self@.well_formed(),
    {
        assert(self.indices@.len() == self.indices@.to_multiset().len());
        assert(sample_range(self@.samples).len() == sample_range(self@.samples).to_multiset().len());
    }

    /// The data set this loader reads.
    pub fn dataset(&self) -> (r: &CustomDataSet)
        ensures
            r@ == self@.dataset,
            self@.well_formed(),
    {
        proof {
            use_type_invariant(self);
            self.lemma_view_well_formed();
        }
        &self.dataset
    }

    /// A loader at the start of an epoch that visits the samples in order; the gap must not be zero.
    pub fn new(dataset: CustomDataSet, batch_size: usize, shuffle: bool) -> (r: DataLoader)
        requires
            dataset@.frame_gap > 0,
        ensures
            r@.dataset == dataset@,
            r@.samples == dataset@.samples(),
            r@.batch_size == batch_size,
            r@.shuffle == shuffle,
            r@.indices == sample_range(dataset@.samples()),
            r@.pos == 0,
            r@.well_formed(),
    {
        let n = dataset.len();
        let mut indices: Vec<usize> = Vec::new();
        let mut i: usize = 0;
        while i < n
            invariant
                i <= n,
                indices@ == sample_range(i as nat),
            decreases n - i,
        {
            indices.push(i);
            i = i + 1;
            assert(indices@ =~= sample_range(i as nat));
        }
        let r = DataLoader { dataset, batch_size, shuffle, indices, pos: 0 };
        proof {
            r.lemma_view_well_formed();
        }
        r
    }

    /// Starts a new epoch: back to the first batch, and, when shuffling, a new random order.
    pub fn reset(&mut self)
        ensures
            final(self)@.pos == 0,
            final(self)@.dataset == old(self)@.dataset,
            final(self)@.samples == old(self)@.samples,
            final(self)@.batch_size == old(self)@.batch_size,
            final(self)@.shuffle == old(self)@.shuffle,
            final(self)@.indices.to_multiset() == old(self)@.indices.to_multiset(),
            final(self)@.indices.to_multiset() == sample_range(final(self)@.samples).to_multiset(),
            final(self)@.indices.len() == final(self)@.samples,
            !old(self)@.shuffle ==> final(self)@.indices == old(self)@.indices,
            final(self)@.well_formed(),
    {
        proof {
            use_type_invariant(&*self);
        }
        self.pos = 0;
        if self.shuffle {
            let current = self.indices.clone();
            self.indices = shuffled(current);
        }
        proof {
            use_type_invariant(&*self);
            self.lemma_view_well_formed();
        }
    }

    /// The number of batches in an epoch; the batch size must not be zero.
    pub fn len(&self) -> (r: usize)
        requires
            self@.batch_size > 0,
            self@.samples + self@.batch_size - 1 <= usize::MAX,
        ensures
            r == (self@.samples + self@.batch_size - 1) / self@.batch_size as int,
    {
        proof {
            use_type_invariant(self);
        }
        (self.dataset.len() + (self.batch_size - 1)) / self.batch_size
    }

    /// The number of samples.
    pub fn dataset_len(&self) -> (r: usize)
        ensures
            r == self@.samples,
            self@.well_formed(),
    {
        proof {
            use_type_invariant(self);
            self.lemma_view_well_formed();
        }
        self.dataset.len()
    }

    /// The sample indices of the next batch of the epoch, or `None` when the epoch is over.
    /// A batch is empty only where the batch size is zero, which the loader does not allow.
    pub fn next_batch(&mut self) -> (r: Option<Vec<usize>>)
        requires
            old(self)@.pos < old(self)@.indices.len() ==> old(self)@.batch_size > 0,
        ensures
            final(self)@.dataset == old(self)@.dataset,
            final(self)@.samples == old(self)@.samples,
            final(self)@.batch_size == old(self)@.batch_size,
            final(self)@.shuffle == old(self)@.shuffle,
            final(self)@.indices == old(self)@.indices,
            final(self)@.well_formed(),
            r is None <==> old(self)@.remaining_batches().len() == 0,
            r matches Some(b) ==> old(self)@.remaining_batches() == seq![b@] + final(self)@.remaining_batches(),
            old(self)@.pos >= old(self)@.indices.len() ==> r is None && final(self)@.pos == old(self)@.pos,
            old(self)@.pos < old(self)@.indices.len() ==> {
                let end = batch_end(old(self)@.pos, old(self)@.batch_size, old(self)@.indices.len());
                &&& r matches Some(b) && b@ == old(self)@.indices.subrange(old(self)@.pos as int, end as int)
                &&& final(self)@.pos == end
            },
    {
        proof {
            use_type_invariant(&*self);
            self.lemma_view_well_formed();
        }
        if self.pos >= self.indices.len() {
            return None;
        }
        let len = self.indices.len();
        let end = if len - self.pos > self.batch_size { self.pos + self.batch_size } else { len };
        let mut batch: Vec<usize> = Vec::new();
        let mut k: usize = self.pos;
        while k < end
            invariant
                self.pos <= k <= end,
                end <= self.indices@.len(),
                batch@ == self.indices@.subrange(self.pos as int, k as int),
            decreases end - k,
        {
            batch.push(self.indices[k]);
            k = k + 1;
            assert(batch@ =~= self.indices@.subrange(self.pos as int, k as int));
        }
        self.pos = end;
        proof {
            use_type_invariant(&*self);
            self.lemma_view_well_formed();
            assert(old(self)@.remaining_batches() == seq![batch@] + self@.remaining_batches());
        }
        Some(batch)
    }
}

proof fn lemma_batches_from(indices: Seq<usize>, pos: nat, batch_size: nat)
    requires
        batch_size > 0,
        pos <= indices.len(),
    ensures
        batches_from(indices, pos, batch_size).flatten() == indices.subrange(pos as int, indices.len() as int),
        batches_from(indices, pos, batch_size).len() == (indices.len() - pos + batch_size - 1) as nat / batch_size,
        forall|b: int|
            0 <= b < batches_from(indices, pos, batch_size).len() ==> 1 <= (#[trigger] batches_from(
                indices,
                pos,
                batch_size,
            )[b]).len() <= batch_size,
    decreases indices.len() - pos,
{
    let bs = batch_size as int;
    let len = indices.len() as int;
    if pos >= indices.len() {
        assert(indices.subrange(pos as int, len) =~= Seq::<usize>::empty());
        assert((len - pos + bs - 1) / bs == 0) by (nonlinear_arith)
            requires
                bs > 0,
                len - pos == 0,
        ;
    } else {
        let end = batch_end(pos, batch_size, indices.len());
        lemma_batches_from(indices, end, batch_size);
        let rest = batches_from(indices, end, batch_size);
        let all = batches_from(indices, pos, batch_size);
        assert(all == seq![indices.subrange(pos as int, end as int)] + rest);
        assert(all.drop_first() =~= rest);
        assert(all.flatten() =~= indices.subrange(pos as int, end as int) + rest.flatten());
        assert(indices.subrange(pos as int, len) =~= indices.subrange(pos as int, end as int)
            + indices.subrange(end as int, len));
        let x = len - pos;
        if pos + batch_size < indices.len() {
            assert((x - bs + bs - 1) / bs + 1 == (x + bs - 1) / bs) by (nonlinear_arith)
                requires
                    bs > 0,
                    x > bs,
            {
                assert(x + bs - 1 == (x - 1) + bs);
            }
        } else {
            assert((x + bs - 1) / bs == 1) by (nonlinear_arith)
                requires
                    bs > 0,
                    1 <= x <= bs,
            ;
            assert((len - end + bs - 1) / bs == 0) by (nonlinear_arith)
                requires
                    bs > 0,
                    len - end == 0,
            ;
        }
        assert forall|b: int| 0 <= b < all.len() implies 1 <= (#[trigger] all[b]).len() <= batch_size by {
            if b > 0 {
                assert(all[b] == rest[b - 1]);
            }
        }
    }
}

/// One epoch of a loader hands out every sample exactly once: its batches, joined, are the
/// epoch's order, which holds each sample once; there are `ceil(n / batch_size)` batches, and
/// each holds between one and `batch_size` samples.
pub proof fn lemma_epoch_covers_samples(indices: Seq<usize>, n: nat, batch_size: nat)
    requires
        batch_size > 0,
        indices.to_multiset() == sample_range(n).to_multiset(),
    ensures
        batches_from(indices, 0, batch_size).flatten().to_multiset() == sample_range(n).to_multiset(),
        batches_from(indices, 0, batch_size).len() == (n + batch_size - 1) as nat / batch_size,
        forall|b: int|
            0 <= b < batches_from(indices, 0, batch_size).len() ==> 1 <= (#[trigger] batches_from(
                indices,
                0,
                batch_size,
            )[b]).len() <= batch_size,
{
    lemma_batches_from(indices, 0, batch_size);
    assert(indices.subrange(0, indices.len() as int) =~= indices);
    assert(indices.len() == indices.to_multiset().len());
    assert(sample_range(n).len() == sample_range(n).to_multiset().len());
}

/// An epoch of a loader that starts from its first batch, as a new loader and a reset one do,
/// hands out every sample exactly once, in `ceil(n / batch_size)` batches of one to
/// `batch_size` samples each; the samples come in ascending order `0, 1, ..., n - 1` when the
/// order is the natural one, as it is for a new loader and always for one that does not shuffle.
pub proof fn lemma_epoch_from_start(v: LoaderView)
    requires
        v.well_formed(),
        v.pos == 0,
        v.batch_size > 0,
    ensures
        v.remaining_batches().flatten().to_multiset() == sample_range(v.samples).to_multiset(),
        v.remaining_batches().len() == (v.samples + v.batch_size - 1) as nat / v.batch_size,
        forall|b: int|
            0 <= b < v.remaining_batches().len() ==> 1 <= (#[trigger] v.remaining_batches()[b]).len()
                <= v.batch_size,
        v.indices == sample_range(v.samples) ==> v.remaining_batches().flatten() == sample_range(v.samples),
        !v.shuffle ==> v.remaining_batches().flatten() == sample_range(v.samples),
{
    lemma_epoch_covers_samples(v.indices, v.samples, v.batch_size);
    lemma_batches_from(v.indices, 0, v.batch_size);
    assert(v.indices.subrange(0, v.indices.len() as int) =~= v.indices);
}

/// The batch that `next_batch` hands out is the first of the batches that remain in the epoch,
/// and the batches after it are those that remain from its end.
pub proof fn lemma_next_batch_is_first_remaining(indices: Seq<usize>, pos: nat, batch_size: nat)
    requires
        batch_size > 0,
        pos < indices.len(),
    ensures
        batches_from(indices, pos, batch_size) == seq![
            indices.subrange(pos as int, batch_end(pos, batch_size, indices.len()) as int),
        ] + batches_from(indices, batch_end(pos, batch_size, indices.len()), batch_size),
{
}

} // verus!
