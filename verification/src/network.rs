//! The network: an ordered sequence of layers of neurons, built by appending,
//! mutated only through the single-slot edit mechanism, with the topology
//! facts a forward pass needs proved once and for all.

use crate::activation::ActivationFn;
use crate::neuron::{copy_bits, Neuron, NeuronModel};
use crate::rng;
use vstd::prelude::*;

verus! {

/// A random edit perturbs a weight rather than the bias with probability
/// WEIGHT_TO_BIAS_NUMER / WEIGHT_TO_BIAS_DENOM.
pub const WEIGHT_TO_BIAS_NUMER: u32 = 19;

/// See WEIGHT_TO_BIAS_NUMER; the ratio is 19/20.
pub const WEIGHT_TO_BIAS_DENOM: u32 = 20;

/// The single-slot record of the most recent edit: the replaced neuron and
/// its coordinates. It is overwritten by every new edit — never a history.
struct Edit {
    old: Neuron,
    layer: usize,
    row: usize,
}

/// Which scalar of the chosen neuron an edit perturbs.
#[derive(Clone, Copy, Debug, PartialEq, Eq, Structural)]
pub enum EditTarget {
    /// The weight at the given position.
    Weight(usize),
    /// The bias.
    Bias,
}

/// What `random_edit` chose: the neuron's coordinates, the scalar to perturb,
/// and that scalar's current pattern. The caller computes the perturbed
/// pattern from `current` and hands it to `commit_edit`.
pub struct EditPlan {
    pub layer: usize,
    pub row: usize,
    pub target: EditTarget,
    pub current: u32,
}

/// The network: layers of neurons, a fixed input arity, and the pending-edit
/// slot.
pub struct NeuralNet {
    layers: Vec<Vec<Neuron>>,
    last_edit: Option<Edit>,
    input_arity: usize,
}

impl NeuralNet {
    /// How many layers the network has.
    pub closed spec fn n_layers(self) -> int {
        self.layers@.len() as int
    }

    /// How many neurons layer `l` has.
    pub closed spec fn layer_width(self, l: int) -> int {
        self.layers@[l]@.len() as int
    }

    /// The model of the neuron at layer `l`, row `r`.
    pub closed spec fn neuron_model(self, l: int, r: int) -> NeuronModel {
        self.layers@[l]@[r]@
    }

    /// The fixed input arity.
    pub closed spec fn in_arity(self) -> int {
        self.input_arity as int
    }

    /// The pending edit, as coordinates and the snapshot taken there.
    pub closed spec fn pending(self) -> Option<(int, int, NeuronModel)> {
        match self.last_edit {
            Option::None => Option::None,
            Option::Some(e) => Option::Some((e.layer as int, e.row as int, e.old@)),
        }
    }

    /// The width of the input vector layer `l` reads: the input arity for the
    /// first layer, else the previous layer's neuron count.
    pub open spec fn feed_width(self, l: int) -> int {
        if l == 0 {
            self.in_arity()
        } else {
            self.layer_width(l - 1)
        }
    }

    /// Topology well-formedness: every neuron owns exactly one weight per
    /// value it reads — the guarantee that makes the forward pass's scratch
    /// buffers sufficient — and a pending edit names coordinates inside the
    /// network and a snapshot of the width recorded there.
    pub open spec fn wf(self) -> bool {
        &&& forall|l: int, r: int|
            0 <= l < self.n_layers() && 0 <= r < self.layer_width(l) ==> (
            #[trigger] self.neuron_model(l, r)).weights.len() == self.feed_width(l)
        &&& match self.pending() {
            Option::None => true,
            Option::Some((l, r, snap)) => {
                &&& 0 <= l < self.n_layers()
                &&& 0 <= r < self.layer_width(l)
                &&& snap.weights.len() == self.feed_width(l)
            },
        }
    }

    /// Every layer has a neuron and every neuron a weight: what a random
    /// edit needs so that each of its uniform choices has something to pick.
    pub open spec fn editable(self) -> bool {
        &&& self.n_layers() > 0
        &&& self.in_arity() >= 1
        &&& forall|l: int| 0 <= l < self.n_layers() ==> #[trigger] self.layer_width(l) >= 1
    }
}

/// The two networks have the same input arity and the same layer widths.
pub open spec fn same_shape(a: NeuralNet, b: NeuralNet) -> bool {
    &&& a.in_arity() == b.in_arity()
    &&& a.n_layers() == b.n_layers()
    &&& forall|l: int| 0 <= l < a.n_layers() ==> #[trigger] a.layer_width(l) == b.layer_width(l)
}

/// The two networks carry exactly the same parameters.
pub open spec fn params_equal(a: NeuralNet, b: NeuralNet) -> bool {
    &&& same_shape(a, b)
    &&& forall|l: int, r: int|
        0 <= l < a.n_layers() && 0 <= r < a.layer_width(l) ==> #[trigger] a.neuron_model(l, r)
            == b.neuron_model(l, r)
}

/// `b` equals `a` everywhere except possibly at the neuron at `(l, r)`.
pub open spec fn agree_except(a: NeuralNet, b: NeuralNet, l: int, r: int) -> bool {
    &&& same_shape(a, b)
    &&& forall|l2: int, r2: int|
        0 <= l2 < a.n_layers() && 0 <= r2 < a.layer_width(l2) && !(l2 == l && r2 == r)
            ==> #[trigger] a.neuron_model(l2, r2) == b.neuron_model(l2, r2)
}

/// `r` is `base` with exactly one layer appended.
pub open spec fn extends(r: NeuralNet, base: NeuralNet) -> bool {
    &&& r.in_arity() == base.in_arity()
    &&& r.n_layers() == base.n_layers() + 1
    &&& forall|l: int| 0 <= l < base.n_layers() ==> #[trigger] r.layer_width(l) == base.layer_width(
        l,
    )
    &&& forall|l: int, rr: int|
        0 <= l < base.n_layers() && 0 <= rr < base.layer_width(l) ==> #[trigger] r.neuron_model(
            l,
            rr,
        ) == base.neuron_model(l, rr)
    &&& r.pending() == base.pending()
}

/// A well-formed network stays well-formed when a layer whose neurons all
/// have `width` weights is appended, `width` being the feed width there.
proof fn lemma_pushed_layer_wf(base: NeuralNet, net: NeuralNet, lvec: Vec<Neuron>, width: int)
    requires
        base.wf(),
        width == base.feed_width(base.n_layers()),
        forall|j: int| 0 <= j < lvec@.len() ==> ((#[trigger] lvec@[j])@).weights.len() == width,
        net.layers@ == base.layers@.push(lvec),
        net.input_arity == base.input_arity,
        net.last_edit == base.last_edit,
    ensures
        net.wf(),
{
    let n = base.n_layers();
    assert forall|l: int, r: int|
        0 <= l < net.n_layers() && 0 <= r < net.layer_width(l) implies (
    #[trigger] net.neuron_model(l, r)).weights.len() == net.feed_width(l) by {
        if l < n {
            assert(net.layers@[l] == base.layers@[l]);
            assert(base.neuron_model(l, r).weights.len() == base.feed_width(l));
            if l > 0 {
                assert(net.layers@[l - 1] == base.layers@[l - 1]);
            }
        } else {
            assert(net.neuron_model(l, r) == lvec@[r]@);
            if n > 0 {
                assert(net.layers@[n - 1] == base.layers@[n - 1]);
            }
        }
    }
    match net.pending() {
        Option::None => {},
        Option::Some((l, r, snap)) => {
            assert(net.layers@[l] == base.layers@[l]);
            if l > 0 {
                assert(net.layers@[l - 1] == base.layers@[l - 1]);
            }
        },
    }
}

/// A well-formed network stays well-formed when one neuron is replaced by one
/// with the same weight count; nothing else may change.
proof fn lemma_neuron_replaced_wf(base: NeuralNet, net: NeuralNet, l: int, r: int, n: Neuron)
    requires
        base.wf(),
        0 <= l < base.n_layers(),
        0 <= r < base.layer_width(l),
        n@.weights.len() == base.neuron_model(l, r).weights.len(),
        net.n_layers() == base.n_layers(),
        forall|k: int|
            0 <= k < base.n_layers() && k != l ==> #[trigger] net.layers@[k] == base.layers@[k],
        net.layers@[l]@ == base.layers@[l]@.update(r, n),
        net.input_arity == base.input_arity,
        net.last_edit == base.last_edit,
    ensures
        net.wf(),
        agree_except(base, net, l, r),
        net.neuron_model(l, r) == n@,
{
    assert forall|k: int| 0 <= k < base.n_layers() implies #[trigger] net.layer_width(k)
        == base.layer_width(k) by {
        if k != l {
            assert(net.layers@[k] == base.layers@[k]);
        }
    }
    assert forall|l2: int, r2: int|
        0 <= l2 < net.n_layers() && 0 <= r2 < net.layer_width(l2) && !(l2 == l && r2 == r) implies (
    #[trigger] net.neuron_model(l2, r2)) == base.neuron_model(l2, r2) by {
        if l2 != l {
            assert(net.layers@[l2] == base.layers@[l2]);
        }
    }
    assert forall|l2: int, r2: int|
        0 <= l2 < net.n_layers() && 0 <= r2 < net.layer_width(l2) implies (
    #[trigger] net.neuron_model(l2, r2)).weights.len() == net.feed_width(l2) by {
        assert(base.neuron_model(l2, r2).weights.len() == base.feed_width(l2));
        if l2 > 0 {
            assert(net.layer_width(l2 - 1) == base.layer_width(l2 - 1));
        }
        if !(l2 == l && r2 == r) {
            assert(net.neuron_model(l2, r2) == base.neuron_model(l2, r2));
        }
    }
    match net.pending() {
        Option::None => {},
        Option::Some((pl, pr, snap)) => {
            assert(snap.weights.len() == base.feed_width(pl));
            if pl > 0 {
                assert(net.layer_width(pl - 1) == base.layer_width(pl - 1));
            }
        },
    }
}

/// A well-formed network stays well-formed when its last layer is replaced by
/// one of the same length whose neurons keep their weight counts.
proof fn lemma_last_layer_replaced_wf(base: NeuralNet, net: NeuralNet, rebuilt: Vec<Neuron>)
    requires
        base.wf(),
        base.n_layers() > 0,
        rebuilt@.len() == base.layer_width(base.n_layers() - 1),
        forall|j: int|
            0 <= j < rebuilt@.len() ==> ((#[trigger] rebuilt@[j])@).weights.len()
                == base.feed_width(base.n_layers() - 1),
        net.layers@ == base.layers@.update(base.n_layers() - 1, rebuilt),
        net.input_arity == base.input_arity,
        net.last_edit == base.last_edit,
    ensures
        net.wf(),
        agree_on_all_but_last(base, net),
        forall|j: int|
            0 <= j < rebuilt@.len() ==> #[trigger] net.neuron_model(base.n_layers() - 1, j)
                == rebuilt@[j]@,
{
    let last = base.n_layers() - 1;
    assert forall|k: int| 0 <= k < base.n_layers() implies #[trigger] net.layer_width(k)
        == base.layer_width(k) by {
        if k != last {
            assert(net.layers@[k] == base.layers@[k]);
        }
    }
    assert forall|l2: int, r2: int|
        0 <= l2 < net.n_layers() && 0 <= r2 < net.layer_width(l2) implies (
    #[trigger] net.neuron_model(l2, r2)).weights.len() == net.feed_width(l2) by {
        assert(base.neuron_model(l2, r2).weights.len() == base.feed_width(l2));
        if l2 > 0 {
            assert(net.layer_width(l2 - 1) == base.layer_width(l2 - 1));
        }
        if l2 != last {
            assert(net.layers@[l2] == base.layers@[l2]);
            assert(net.neuron_model(l2, r2) == base.neuron_model(l2, r2));
        } else {
            assert(net.neuron_model(l2, r2) == rebuilt@[r2]@);
        }
    }
    assert forall|l2: int, r2: int|
        0 <= l2 < base.n_layers() - 1 && 0 <= r2 < base.layer_width(l2) implies (
    #[trigger] base.neuron_model(l2, r2)) == net.neuron_model(l2, r2) by {
        assert(net.layers@[l2] == base.layers@[l2]);
    }
    match net.pending() {
        Option::None => {},
        Option::Some((pl, pr, snap)) => {
            assert(snap.weights.len() == base.feed_width(pl));
            if pl > 0 {
                assert(net.layer_width(pl - 1) == base.layer_width(pl - 1));
            }
        },
    }
}

impl NeuralNet {
    /// An empty network with the given input arity and no pending edit.
    pub fn new(input_arity: usize) -> (r: NeuralNet)
        ensures
            r.n_layers() == 0,
            r.in_arity() == input_arity,
            r.pending() is None,
            r.wf(),
    {
        NeuralNet { layers: Vec::new(), last_edit: Option::None, input_arity }
    }

    /// The weight count the next layer's neurons will get: the last layer's
    /// neuron count, or the input arity while no layer exists.
    pub fn last_layer_len(&self) -> (r: usize)
        ensures
            r == self.feed_width(self.n_layers()),
    {
        if self.layers.len() == 0 {
            self.input_arity
        } else {
            self.layers[self.layers.len() - 1].len()
        }
    }

    /// The widest layer's neuron count, 0 for an empty network: the length
    /// the forward pass's two scratch buffers need.
    pub fn longest_layer(&self) -> (r: usize)
        ensures
            forall|l: int| 0 <= l < self.n_layers() ==> #[trigger] self.layer_width(l) <= r,
            r == 0 || exists|l: int| 0 <= l < self.n_layers() && #[trigger] self.layer_width(l) == r,
    {
        let mut best: usize = 0;
        let mut l: usize = 0;
        while l < self.layers.len()
            invariant
                l <= self.n_layers(),
                forall|k: int| 0 <= k < l ==> #[trigger] self.layer_width(k) <= best,
                best == 0 || exists|k: int|
                    0 <= k < l && #[trigger] self.layer_width(k) == best,
            decreases self.n_layers() - l,
        {
            let w = self.layers[l].len();
            if w > best {
                best = w;
                proof {
                    assert(self.layer_width(l as int) == best);
                }
            }
            l = l + 1;
        }
        best
    }

    /// Appends a layer of `n` zero-initialised neurons with the given
    /// activation; each gets one weight per value it will read.
    pub fn add_layer(self, n: usize, func: ActivationFn) -> (r: NeuralNet)
        requires
            self.wf(),
        ensures
            r.wf(),
            extends(r, self),
            r.layer_width(self.n_layers()) == n,
            forall|rr: int|
                0 <= rr < n ==> {
                    let m = #[trigger] r.neuron_model(self.n_layers(), rr);
                    &&& m.weights.len() == self.feed_width(self.n_layers())
                    &&& (forall|i: int| 0 <= i < m.weights.len() ==> m.weights[i] == 0u32)
                    &&& m.bias == 0u32
                    &&& m.activation == func
                },
    {
        let width = self.last_layer_len();
        let mut layer: Vec<Neuron> = Vec::new();
        while layer.len() < n
            invariant
                layer@.len() <= n,
                forall|j: int|
                    0 <= j < layer@.len() ==> {
                        let m = (#[trigger] layer@[j])@;
                        &&& m.weights.len() == width
                        &&& (forall|i: int| 0 <= i < m.weights.len() ==> m.weights[i] == 0u32)
                        &&& m.bias == 0u32
                        &&& m.activation == func
                    },
            decreases n - layer.len(),
        {
            layer.push(Neuron::new(width, 0, func));
        }
        let ghost glayer = layer;
        let mut net = self;
        net.layers.push(layer);
        proof {
            lemma_pushed_layer_wf(self, net, glayer, width as int);
        }
        net
    }

    /// Appends a layer of `n` neurons whose weights and biases are uniform
    /// samples on `[0, 1)` drawn from the given generator.
    pub fn push_random_layer(self, generator: &mut rand::rngs::StdRng, n: usize, func: ActivationFn) -> (r:
        NeuralNet)
        requires
            self.wf(),
        ensures
            r.wf(),
            extends(r, self),
            r.layer_width(self.n_layers()) == n,
            forall|rr: int|
                0 <= rr < n ==> {
                    let m = #[trigger] r.neuron_model(self.n_layers(), rr);
                    &&& m.weights.len() == self.feed_width(self.n_layers())
                    &&& (forall|i: int|
                        0 <= i < m.weights.len() ==> m.weights[i] < crate::scalar::ONE_BITS)
                    &&& m.bias < crate::scalar::ONE_BITS
                    &&& m.activation == func
                },
    {
        let width = self.last_layer_len();
        let mut layer: Vec<Neuron> = Vec::new();
        while layer.len() < n
            invariant
                layer@.len() <= n,
                forall|j: int|
                    0 <= j < layer@.len() ==> {
                        let m = (#[trigger] layer@[j])@;
                        &&& m.weights.len() == width
                        &&& (forall|i: int|
                            0 <= i < m.weights.len() ==> m.weights[i] < crate::scalar::ONE_BITS)
                        &&& m.bias < crate::scalar::ONE_BITS
                        &&& m.activation == func
                    },
            decreases n - layer.len(),
        {
            layer.push(Neuron::new_random(generator, width, func));
        }
        let ghost glayer = layer;
        let mut net = self;
        net.layers.push(layer);
        proof {
            lemma_pushed_layer_wf(self, net, glayer, width as int);
        }
        net
    }

    /// Overwrites the last layer's weight vectors element-wise by position.
    /// Calling this before any layer exists, or with shapes that do not match
    /// the layer, is a caller contract violation and is ruled out here.
    pub fn with_weights(self, weights: Vec<Vec<u32>>) -> (r: NeuralNet)
        requires
            self.wf(),
            self.n_layers() > 0,
            weights@.len() == self.layer_width(self.n_layers() - 1),
            forall|i: int|
                0 <= i < weights@.len() ==> (#[trigger] weights@[i])@.len() == self.feed_width(
                    self.n_layers() - 1,
                ),
        ensures
            r.wf(),
            agree_on_all_but_last(self, r),
            forall|i: int|
                0 <= i < weights@.len() ==> #[trigger] r.neuron_model(self.n_layers() - 1, i) == (
                NeuronModel {
                    weights: weights@[i]@,
                    ..self.neuron_model(self.n_layers() - 1, i)
                }),
    {
        let last = self.layers.len() - 1;
        let mut net = self;
        let mut inner: Vec<Neuron> = Vec::new();
        net.layers.set_and_swap(last, &mut inner);
        let mut rebuilt: Vec<Neuron> = Vec::new();
        let mut i: usize = 0;
        while i < weights.len()
            invariant
                i <= weights@.len(),
                weights@.len() == inner@.len(),
                rebuilt@.len() == i,
                forall|j: int|
                    0 <= j < i ==> (#[trigger] rebuilt@[j])@ == (NeuronModel {
                        weights: weights@[j]@,
                        ..inner@[j]@
                    }),
            decreases weights@.len() - i,
        {
            let n = Neuron {
                weights: copy_bits(&weights[i]),
                bias: inner[i].bias,
                activation: inner[i].activation,
            };
            rebuilt.push(n);
            i = i + 1;
        }
        let ghost grebuilt = rebuilt;
        net.layers.set_and_swap(last, &mut rebuilt);
        proof {
            let lasti = last as int;
            assert(net.layers@ =~= self.layers@.update(lasti, grebuilt));
            assert forall|j: int| 0 <= j < grebuilt@.len() implies (
            (#[trigger] grebuilt@[j])@).weights.len() == self.feed_width(lasti) by {
                assert(grebuilt@[j]@ == (NeuronModel { weights: weights@[j]@, ..inner@[j]@ }));
            }
            lemma_last_layer_replaced_wf(self, net, grebuilt);
            assert forall|j: int| 0 <= j < weights@.len() implies #[trigger] net.neuron_model(
                lasti,
                j,
            ) == (NeuronModel { weights: weights@[j]@, ..self.neuron_model(lasti, j) }) by {
                assert(net.neuron_model(lasti, j) == grebuilt@[j]@);
                assert(inner@[j]@ == self.neuron_model(lasti, j));
            }
        }
        net
    }

    /// Overwrites the last layer's biases element-wise by position. The same
    /// caller contract as `with_weights`.
    pub fn with_bias(self, biases: Vec<u32>) -> (r: NeuralNet)
        requires
            self.wf(),
            self.n_layers() > 0,
            biases@.len() == self.layer_width(self.n_layers() - 1),
        ensures
            r.wf(),
            agree_on_all_but_last(self, r),
            forall|i: int|
                0 <= i < biases@.len() ==> #[trigger] r.neuron_model(self.n_layers() - 1, i) == (
                NeuronModel { bias: biases@[i], ..self.neuron_model(self.n_layers() - 1, i) }),
    {
        let last = self.layers.len() - 1;
        let mut net = self;
        let mut inner: Vec<Neuron> = Vec::new();
        net.layers.set_and_swap(last, &mut inner);
        let mut rebuilt: Vec<Neuron> = Vec::new();
        let mut i: usize = 0;
        while i < biases.len()
            invariant
                i <= biases@.len(),
                biases@.len() == inner@.len(),
                rebuilt@.len() == i,
                forall|j: int|
                    0 <= j < i ==> (#[trigger] rebuilt@[j])@ == (NeuronModel {
                        bias: biases@[j],
                        ..inner@[j]@
                    }),
            decreases biases@.len() - i,
        {
            let n = Neuron {
                weights: copy_bits(&inner[i].weights),
                bias: biases[i],
                activation: inner[i].activation,
            };
            rebuilt.push(n);
            i = i + 1;
        }
        let ghost grebuilt = rebuilt;
        net.layers.set_and_swap(last, &mut rebuilt);
        proof {
            let lasti = last as int;
            assert(net.layers@ =~= self.layers@.update(lasti, grebuilt));
            assert forall|j: int| 0 <= j < grebuilt@.len() implies (
            (#[trigger] grebuilt@[j])@).weights.len() == self.feed_width(lasti) by {
                assert(grebuilt@[j]@ == (NeuronModel { bias: biases@[j], ..inner@[j]@ }));
                assert(inner@[j]@ == self.neuron_model(lasti, j));
            }
            lemma_last_layer_replaced_wf(self, net, grebuilt);
            assert forall|j: int| 0 <= j < biases@.len() implies #[trigger] net.neuron_model(
                lasti,
                j,
            ) == (NeuronModel { bias: biases@[j], ..self.neuron_model(lasti, j) }) by {
                assert(net.neuron_model(lasti, j) == grebuilt@[j]@);
                assert(inner@[j]@ == self.neuron_model(lasti, j));
            }
        }
        net
    }
}

/// `b` equals `a` except possibly inside the last layer's neurons; the shape,
/// the pending slot and the arity are kept.
pub open spec fn agree_on_all_but_last(a: NeuralNet, b: NeuralNet) -> bool {
    &&& same_shape(a, b)
    &&& b.pending() == a.pending()
    &&& forall|l: int, r: int|
        0 <= l < a.n_layers() - 1 && 0 <= r < a.layer_width(l) ==> #[trigger] a.neuron_model(l, r)
            == b.neuron_model(l, r)
}

impl NeuralNet {
    /// How many layers the network has.
    pub fn layer_count(&self) -> (r: usize)
        ensures
            r == self.n_layers(),
    {
        self.layers.len()
    }

    /// How many neurons layer `l` has.
    pub fn layer_len(&self, l: usize) -> (r: usize)
        requires
            l < self.n_layers(),
        ensures
            r == self.layer_width(l as int),
    {
        self.layers[l].len()
    }

    /// The neuron at layer `l`, row `r`.
    pub fn neuron(&self, l: usize, r: usize) -> (n: &Neuron)
        requires
            l < self.n_layers(),
            r < self.layer_width(l as int),
        ensures
            n@ == self.neuron_model(l as int, r as int),
    {
        &self.layers[l][r]
    }

    /// The fixed input arity.
    pub fn input_arity(&self) -> (r: usize)
        ensures
            r == self.in_arity(),
    {
        self.input_arity
    }

    /// Whether an edit is pending.
    pub fn has_pending_edit(&self) -> (r: bool)
        ensures
            r == (self.pending() is Some),
    {
        match &self.last_edit {
            Option::Some(_) => true,
            Option::None => false,
        }
    }

    /// Chooses a layer uniformly at random, a row uniformly within it, and
    /// which of the neuron's scalars a mutation shall perturb — a weight with
    /// probability 19/20, else the bias, the weight position again uniform.
    /// The chosen neuron is snapshotted into the pending-edit slot,
    /// overwriting whatever was there; the parameters themselves do not
    /// change. The caller perturbs `current` and hands the result to
    /// `commit_edit`.
    pub fn random_edit(&mut self, generator: &mut rand::rngs::StdRng) -> (plan: EditPlan)
        requires
            old(self).wf(),
            old(self).editable(),
        ensures
            final(self).wf(),
            params_equal(*old(self), *final(self)),
            final(self).in_arity() == old(self).in_arity(),
            0 <= plan.layer < old(self).n_layers(),
            0 <= plan.row < old(self).layer_width(plan.layer as int),
            final(self).pending() == Option::Some(
                (
                    plan.layer as int,
                    plan.row as int,
                    old(self).neuron_model(plan.layer as int, plan.row as int),
                ),
            ),
            match plan.target {
                EditTarget::Weight(i) => i < old(self).neuron_model(
                    plan.layer as int,
                    plan.row as int,
                ).weights.len() && plan.current == old(self).neuron_model(
                    plan.layer as int,
                    plan.row as int,
                ).weights[i as int],
                EditTarget::Bias => plan.current == old(self).neuron_model(
                    plan.layer as int,
                    plan.row as int,
                ).bias,
            },
    {
        let layer = rng::pick_index(generator, self.layers.len());
        proof {
            assert(self.layer_width(layer as int) >= 1);
        }
        let row = rng::pick_index(generator, self.layers[layer].len());
        let snap = self.layers[layer][row].snapshot();
        self.last_edit = Option::Some(Edit { old: snap, layer, row });
        proof {
            assert(old(self).neuron_model(layer as int, row as int).weights.len() == old(
                self,
            ).feed_width(layer as int));
            if layer > 0 {
                assert(old(self).layer_width(layer as int - 1) >= 1);
            }
            assert(self.layers == old(self).layers);
            assert forall|l2: int, r2: int|
                0 <= l2 < self.n_layers() && 0 <= r2 < self.layer_width(l2) implies (
            #[trigger] self.neuron_model(l2, r2)).weights.len() == self.feed_width(l2) by {
                assert(old(self).neuron_model(l2, r2).weights.len() == old(self).feed_width(l2));
            }
        }
        let target = if rng::bernoulli(generator, WEIGHT_TO_BIAS_NUMER, WEIGHT_TO_BIAS_DENOM) {
            EditTarget::Weight(rng::pick_index(generator, self.layers[layer][row].weights.len()))
        } else {
            EditTarget::Bias
        };
        let current = match target {
            EditTarget::Weight(i) => self.layers[layer][row].weights[i],
            EditTarget::Bias => self.layers[layer][row].bias,
        };
        EditPlan { layer, row, target, current }
    }

    /// Writes the given pattern into the scalar the plan names. The pending
    /// slot is kept as it is, so a commit right after `random_edit` leaves
    /// exactly the snapshot that `undo_edit` needs.
    pub fn commit_edit(&mut self, plan: &EditPlan, value: u32)
        requires
            plan.layer < old(self).n_layers(),
            plan.row < old(self).layer_width(plan.layer as int),
            plan.target matches EditTarget::Weight(i) ==> i < old(self).neuron_model(
                plan.layer as int,
                plan.row as int,
            ).weights.len(),
        ensures
            agree_except(*old(self), *final(self), plan.layer as int, plan.row as int),
            final(self).neuron_model(plan.layer as int, plan.row as int) == (match plan.target {
                EditTarget::Weight(i) => NeuronModel {
                    weights: old(self).neuron_model(
                        plan.layer as int,
                        plan.row as int,
                    ).weights.update(i as int, value),
                    ..old(self).neuron_model(plan.layer as int, plan.row as int)
                },
                EditTarget::Bias => NeuronModel {
                    bias: value,
                    ..old(self).neuron_model(plan.layer as int, plan.row as int)
                },
            }),
            final(self).pending() == old(self).pending(),
            old(self).wf() ==> final(self).wf(),
    {
        let mut n = self.layers[plan.layer][plan.row].snapshot();
        match plan.target {
            EditTarget::Weight(i) => n.change_weight(i, value),
            EditTarget::Bias => n.change_bias(value),
        }
        let ghost gn = n;
        let mut inner: Vec<Neuron> = Vec::new();
        self.layers.set_and_swap(plan.layer, &mut inner);
        inner.set(plan.row, n);
        let ghost ginner = inner;
        self.layers.set_and_swap(plan.layer, &mut inner);
        proof {
            let li = plan.layer as int;
            let ri = plan.row as int;
            assert(self.layers@ =~= old(self).layers@.update(li, ginner));
            assert(ginner@ == old(self).layers@[li]@.update(ri, gn));
            if old(self).wf() {
                lemma_neuron_replaced_wf(*old(self), *self, li, ri, gn);
            }
        }
    }

    /// If an edit is pending, writes its snapshot back over the neuron at the
    /// recorded coordinates; without one this is a no-op. The slot itself is
    /// kept: only the single most recent edit ever exists, and a second
    /// `random_edit` before an undo discards the first for good.
    pub fn undo_edit(&mut self)
        requires
            old(self).wf(),
        ensures
            final(self).wf(),
            final(self).pending() == old(self).pending(),
            final(self).in_arity() == old(self).in_arity(),
            match old(self).pending() {
                Option::None => params_equal(*old(self), *final(self)),
                Option::Some((l, r, snap)) => {
                    &&& agree_except(*old(self), *final(self), l, r)
                    &&& final(self).neuron_model(l, r) == snap
                },
            },
    {
        let (l, r, snap) = match &self.last_edit {
            Option::None => {
                return;
            },
            Option::Some(e) => (e.layer, e.row, e.old.snapshot()),
        };
        let ghost gsnap = snap;
        let mut inner: Vec<Neuron> = Vec::new();
        self.layers.set_and_swap(l, &mut inner);
        inner.set(r, snap);
        let ghost ginner = inner;
        self.layers.set_and_swap(l, &mut inner);
        proof {
            let li = l as int;
            let ri = r as int;
            assert(self.layers@ =~= old(self).layers@.update(li, ginner));
            assert(ginner@ == old(self).layers@[li]@.update(ri, gsnap));
            lemma_neuron_replaced_wf(*old(self), *self, li, ri, gsnap);
        }
    }
}

/// Law (edit/undo round trip): an edit that touched only the neuron at
/// `(l, r)`, undone by writing back the value that neuron had before it,
/// restores every parameter of the network — so a forward run of the restored
/// network reads exactly the scalars it read before the edit.
pub proof fn lemma_edit_undo_round_trip(
    before: NeuralNet,
    edited: NeuralNet,
    restored: NeuralNet,
    l: int,
    r: int,
)
    requires
        0 <= l < before.n_layers(),
        0 <= r < before.layer_width(l),
        agree_except(before, edited, l, r),
        agree_except(edited, restored, l, r),
        restored.neuron_model(l, r) == before.neuron_model(l, r),
    ensures
        params_equal(before, restored),
{
    assert forall|l2: int, r2: int|
        0 <= l2 < before.n_layers() && 0 <= r2 < before.layer_width(l2) implies #[trigger] before.neuron_model(
        l2,
        r2,
    ) == restored.neuron_model(l2, r2) by {
        if !(l2 == l && r2 == r) {
            assert(before.neuron_model(l2, r2) == edited.neuron_model(l2, r2));
            assert(edited.neuron_model(l2, r2) == restored.neuron_model(l2, r2));
        }
    }
}

/// Law (scratch sizing): in a well-formed network whose input arity and layer
/// widths are all bounded by `bound`, every neuron reads at most `bound`
/// values — so two scratch buffers of that length fit every layer's input and
/// output during a forward pass.
pub proof fn lemma_scratch_buffers_sufficient(net: NeuralNet, bound: int)
    requires
        net.wf(),
        net.in_arity() <= bound,
        forall|l: int| 0 <= l < net.n_layers() ==> #[trigger] net.layer_width(l) <= bound,
    ensures
        forall|l: int, r: int|
            0 <= l < net.n_layers() && 0 <= r < net.layer_width(l) ==> (
            #[trigger] net.neuron_model(l, r)).weights.len() <= bound,
{
}

} // verus!
