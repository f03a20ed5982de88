use crate::matrix::{
    diff_of, hadamard_of, lawful, product_of, scaled_of, sum_of, total, transposed_of, Matrix,
    Scalar,
};
use vstd::prelude::*;
use vstd::std_specs::convert::FromSpec;
use vstd::std_specs::ops::{AddSpec, DivSpec, MulSpec, SubSpec};

verus! {

/// A pair of scalar functions: the activation, and its derivative written in
/// terms of the activation's output (for the logistic sigmoid, `y * (1 - y)`).
pub struct Activation<F, D> {
    pub function: F,
    pub derivative: D,
}

/// The scalar's `+`, `-`, `*`, `/` and its conversion from `u8` compute what
/// their spec functions say.
pub open spec fn exact<T: Scalar>() -> bool {
    &&& lawful::<T>()
    &&& T::obeys_div_spec()
    &&& <T as FromSpec<u8>>::obeys_from_spec()
}

/// The scalar's `/` is defined on every pair of values.
pub open spec fn divisible<T: Scalar>() -> bool {
    forall|x: T, y: T| #[trigger] x.div_req(y)
}

/// One half, as the scalar type computes it: `1 / 2`.
pub open spec fn half<T: Scalar>() -> T {
    <T as FromSpec<u8>>::from_spec(1u8).div_spec(<T as FromSpec<u8>>::from_spec(2u8))
}

/// A multi-layer perceptron.
///
/// `weights[i]` maps the activations of layer `i` to layer `i + 1`
/// (`layers[i + 1] x layers[i]`), `biases[i]` is the matching column, and `data`
/// caches the activations of every layer from the latest forward pass.
pub struct Network<T, F, D> {
    pub layers: Vec<usize>,
    pub weights: Vec<Matrix<T>>,
    pub biases: Vec<Matrix<T>>,
    pub data: Vec<Matrix<T>>,
    pub activation: Activation<F, D>,
    pub learning_rate: T,
}

/// `y` is the activation `f` applied to each entry of `w * x + b`.
pub open spec fn layer_output<T: Scalar, F: Fn(T) -> T>(
    w: Matrix<T>,
    b: Matrix<T>,
    x: Matrix<T>,
    f: F,
    y: Matrix<T>,
) -> bool {
    &&& y.wf()
    &&& y.rows == w.rows
    &&& y.cols == x.cols
    &&& exact::<T>() ==> forall|k: int|
        0 <= k < y.data.len() ==> call_ensures(
            f,
            (sum_of(w.product(&x), b.data@)[k],),
            #[trigger] y.data@[k],
        )
}

/// Step `i` of a forward pass: `acts[i + 1]` is the output of transition `i`
/// applied to `acts[i]`.
pub open spec fn forward_step<T: Scalar, F: Fn(T) -> T>(
    weights: Seq<Matrix<T>>,
    biases: Seq<Matrix<T>>,
    f: F,
    acts: Seq<Matrix<T>>,
    i: int,
) -> bool {
    layer_output(weights[i], biases[i], acts[i], f, acts[i + 1])
}

/// `ys` holds the derivative `d` taken at each entry of `xs`.
pub open spec fn derivatives<T, D: Fn(T) -> T>(d: D, xs: Seq<T>, ys: Seq<T>) -> bool {
    &&& ys.len() == xs.len()
    &&& forall|k: int| 0 <= k < ys.len() ==> call_ensures(d, (xs[k],), #[trigger] ys[k])
}

/// The scaled gradient of transition `i` during a backward pass whose error
/// columns are `es` and whose derivative columns are `ds`.
pub open spec fn gradient<T: Scalar>(es: Seq<Seq<T>>, ds: Seq<Seq<T>>, i: int) -> Seq<T> {
    scaled_of(hadamard_of(ds[i], es[i]), half::<T>())
}

/// Transition `i`'s update in a backward pass from `before` to `after`: its
/// weights gain `g * act^T` and its bias gains `g`, where `g` is the scaled
/// gradient and `act` the cached input column of the transition.
pub open spec fn update_step<T: Scalar, F, D>(
    before: Network<T, F, D>,
    after: Network<T, F, D>,
    es: Seq<Seq<T>>,
    ds: Seq<Seq<T>>,
    i: int,
) -> bool {
    let l_in = before.layers@[i] as int;
    let l_out = before.layers@[i + 1] as int;
    let g = gradient(es, ds, i);
    let act = before.data@[i].data@;
    exact::<T>() ==> {
        &&& after.weights@[i].data@ == sum_of(
            before.weights@[i].data@,
            product_of(g, l_out, 1, transposed_of(act, l_in, 1), l_in),
        )
        &&& after.biases@[i].data@ == sum_of(before.biases@[i].data@, g)
    }
}

/// How the columns of transition `i - 1` follow from transition `i`: the
/// error is the updated weights, transposed, times the error of `i`; the
/// derivative column is the derivative taken at the cached input of `i`.
pub open spec fn propagate_step<T: Scalar, F, D: Fn(T) -> T>(
    before: Network<T, F, D>,
    after: Network<T, F, D>,
    es: Seq<Seq<T>>,
    ds: Seq<Seq<T>>,
    i: int,
) -> bool {
    let l_in = before.layers@[i] as int;
    let l_out = before.layers@[i + 1] as int;
    &&& exact::<T>() ==> es[i - 1] == product_of(
        transposed_of(after.weights@[i].data@, l_out, l_in),
        l_in,
        l_out,
        es[i],
        1,
    )
    &&& derivatives(before.activation.derivative, before.data@[i].data@, ds[i - 1])
}

/// A backward pass from `before` to `after` for the output column `predicted`
/// and the target column `target`, with `es[i]` and `ds[i]` the error and
/// derivative columns that transition `i` used, from the last transition down.
pub open spec fn backward_pass<T: Scalar, F, D: Fn(T) -> T>(
    before: Network<T, F, D>,
    after: Network<T, F, D>,
    predicted: Seq<T>,
    target: Seq<T>,
    es: Seq<Seq<T>>,
    ds: Seq<Seq<T>>,
) -> bool {
    let n = before.layers.len() - 1;
    &&& es.len() == n
    &&& ds.len() == n
    &&& exact::<T>() ==> es[n - 1] == diff_of(target, predicted)
    &&& derivatives(before.activation.derivative, predicted, ds[n - 1])
    &&& forall|i: int| 0 <= i < n ==> #[trigger] update_step(before, after, es, ds, i)
    &&& forall|i: int| 0 < i < n ==> #[trigger] propagate_step(before, after, es, ds, i)
}

/// A copy of `row`.
fn copy_row<T: Copy>(row: &Vec<T>) -> (r: Vec<T>)
    ensures
        r@ == row@,
{
    let mut r: Vec<T> = Vec::with_capacity(row.len());
    let mut k: usize = 0;
    while k < row.len()
        invariant
            k <= row.len(),
            r@ == row@.subrange(0, k as int),
        decreases row.len() - k,
    {
        r.push(row[k]);
        k = k + 1;
        assert(r@ =~= row@.subrange(0, k as int));
    }
    assert(r@ =~= row@);
    r
}

/// Whether training reports progress at `epoch` of `epochs`: at every epoch
/// when there are fewer than a hundred, else at the epochs that share no bit
/// with `epochs / 100`.
pub fn reports_progress(epoch: u32, epochs: u32) -> (r: bool)
    ensures
        r == (epochs < 100 || epoch & (epochs / 100) == 0),
{
    epochs < 100 || epoch & (epochs / 100) == 0
}

/// `after` is `before` once a forward pass has run on the column `x`: the
/// parameters are untouched and the cache holds `x` and every layer's output.
pub open spec fn forward_pass<T: Scalar, F: Fn(T) -> T, D: Fn(T) -> T>(
    before: Network<T, F, D>,
    after: Network<T, F, D>,
    x: Seq<T>,
) -> bool {
    &&& after.wf()
    &&& after.cache_ready()
    &&& after.layers == before.layers
    &&& after.weights == before.weights
    &&& after.biases == before.biases
    &&& after.activation == before.activation
    &&& after.learning_rate == before.learning_rate
    &&& after.data@[0].data@ == x
    &&& forall|i: int|
        0 <= i < after.weights.len() ==> #[trigger] forward_step(
            after.weights@,
            after.biases@,
            after.activation.function,
            after.data@,
            i,
        )
}

/// One training step on the example `(x, y)`: a forward pass on `x`, then a
/// backward pass from its output towards `y`.
pub open spec fn training_step<T: Scalar, F: Fn(T) -> T, D: Fn(T) -> T>(
    before: Network<T, F, D>,
    after: Network<T, F, D>,
    x: Seq<T>,
    y: Seq<T>,
) -> bool {
    exists|mid: Network<T, F, D>, es: Seq<Seq<T>>, ds: Seq<Seq<T>>|
        forward_pass(before, mid, x) && #[trigger] backward_pass(
            mid,
            after,
            mid.data@[mid.data.len() - 1].data@,
            y,
            es,
            ds,
        )
}

impl<T: Scalar, F: Fn(T) -> T, D: Fn(T) -> T> Network<T, F, D> {
    /// Every transition has matrices of the sizes its layers give, every layer
    /// has at least one unit, and both activation functions take any scalar.
    pub open spec fn wf(&self) -> bool {
        &&& self.layers.len() >= 2
        &&& self.weights.len() == self.layers.len() - 1
        &&& self.biases.len() == self.layers.len() - 1
        &&& forall|i: int| 0 <= i < self.layers.len() ==> #[trigger] self.layers@[i] > 0
        &&& forall|i: int|
            #![trigger self.weights@[i]]
            #![trigger self.biases@[i]]
            0 <= i < self.weights.len() ==> {
                &&& self.weights@[i].wf()
                &&& self.weights@[i].rows == self.layers@[i + 1]
                &&& self.weights@[i].cols == self.layers@[i]
                &&& self.biases@[i].wf()
                &&& self.biases@[i].rows == self.layers@[i + 1]
                &&& self.biases@[i].cols == 1
            }
        &&& forall|x: T| call_requires(self.activation.function, (x,))
        &&& forall|x: T| call_requires(self.activation.derivative, (x,))
    }

    /// The activation cache holds one column per layer, of that layer's size.
    pub open spec fn cache_ready(&self) -> bool {
        &&& self.data.len() == self.layers.len()
        &&& forall|i: int|
            0 <= i < self.data.len() ==> {
                &&& (#[trigger] self.data@[i]).wf()
                &&& self.data@[i].rows == self.layers@[i]
                &&& self.data@[i].cols == 1
            }
    }

    /// Builds a network with the given layer sizes; every weight and bias is a
    /// draw of `sample`, and the activation cache starts empty.
    pub fn new<S: Fn() -> T>(
        layers: Vec<usize>,
        activation: Activation<F, D>,
        learning_rate: T,
        sample: S,
    ) -> (r: Self)
        requires
            layers.len() >= 2,
            forall|i: int| 0 <= i < layers.len() ==> #[trigger] layers@[i] > 0,
            forall|i: int|
                0 <= i < layers.len() - 1 ==> #[trigger] layers@[i] * layers@[i + 1] <= usize::MAX,
            call_requires(sample, ()),
            forall|x: T| call_requires(activation.function, (x,)),
            forall|x: T| call_requires(activation.derivative, (x,)),
        ensures
            r.wf(),
            r.layers@ == layers@,
            r.data.len() == 0,
            r.activation == activation,
            r.learning_rate == learning_rate,
            forall|i: int, k: int|
                0 <= i < r.weights.len() && 0 <= k < r.weights@[i].data.len() ==> call_ensures(
                    sample,
                    (),
                    #[trigger] r.weights@[i].data@[k],
                ),
            forall|i: int, k: int|
                0 <= i < r.biases.len() && 0 <= k < r.biases@[i].data.len() ==> call_ensures(
                    sample,
                    (),
                    #[trigger] r.biases@[i].data@[k],
                ),
    {
        let n = layers.len() - 1;
        let mut weights: Vec<Matrix<T>> = Vec::new();
        let mut biases: Vec<Matrix<T>> = Vec::new();
        let mut i: usize = 0;
        while i < n
            invariant
                n == layers.len() - 1,
                i <= n,
                weights.len() == i,
                biases.len() == i,
                call_requires(sample, ()),
                forall|m: int| 0 <= m < layers.len() ==> #[trigger] layers@[m] > 0,
                forall|m: int|
                    0 <= m < layers.len() - 1 ==> #[trigger] layers@[m] * layers@[m + 1]
                        <= usize::MAX,
                forall|m: int|
                    #![trigger weights@[m]]
                    #![trigger biases@[m]]
                    0 <= m < i ==> {
                        &&& weights@[m].wf()
                        &&& weights@[m].rows == layers@[m + 1]
                        &&& weights@[m].cols == layers@[m]
                        &&& biases@[m].wf()
                        &&& biases@[m].rows == layers@[m + 1]
                        &&& biases@[m].cols == 1
                    },
                forall|m: int, k: int|
                    0 <= m < i && 0 <= k < weights@[m].data.len() ==> call_ensures(
                        sample,
                        (),
                        #[trigger] weights@[m].data@[k],
                    ),
                forall|m: int, k: int|
                    0 <= m < i && 0 <= k < biases@[m].data.len() ==> call_ensures(
                        sample,
                        (),
                        #[trigger] biases@[m].data@[k],
                    ),
            decreases n - i,
        {
            assert(layers@[i as int] * layers@[i + 1] <= usize::MAX);
            assert(layers@[i + 1] * layers@[i as int] <= usize::MAX) by (nonlinear_arith)
                requires
                    layers@[i as int] * layers@[i + 1] <= usize::MAX,
            ;
            let w = Matrix::random(layers[i + 1], layers[i], &sample);
            let b = Matrix::random(layers[i + 1], 1, &sample);
            weights.push(w);
            biases.push(b);
            i = i + 1;
        }
        Network { layers, weights, biases, data: Vec::new(), activation, learning_rate }
    }

    /// Runs `inputs` through every layer, caches each layer's activations
    /// (the input first) and returns the output layer's column.
    pub fn feed_forward(&mut self, inputs: Matrix<T>) -> (r: Matrix<T>)
        requires
            old(self).wf(),
            inputs.wf(),
            inputs.rows == old(self).layers@[0],
            inputs.cols == 1,
            total::<T>(),
        ensures
            final(self).wf(),
            final(self).cache_ready(),
            final(self).layers == old(self).layers,
            final(self).weights == old(self).weights,
            final(self).biases == old(self).biases,
            final(self).activation == old(self).activation,
            final(self).learning_rate == old(self).learning_rate,
            final(self).data@[0] == inputs,
            forall|i: int|
                0 <= i < final(self).weights.len() ==> #[trigger] forward_step(
                    final(self).weights@,
                    final(self).biases@,
                    final(self).activation.function,
                    final(self).data@,
                    i,
                ),
            r.same(&final(self).data@[final(self).data.len() - 1]),
    {
        let n = self.layers.len() - 1;
        let mut cache: Vec<Matrix<T>> = Vec::new();
        cache.push(inputs);
        let mut i: usize = 0;
        while i < n
            invariant
                self.wf(),
                total::<T>(),
                n == self.layers.len() - 1,
                i <= n,
                cache.len() == i + 1,
                cache@[0] == inputs,
                forall|m: int|
                    0 <= m <= i ==> {
                        &&& (#[trigger] cache@[m]).wf()
                        &&& cache@[m].rows == self.layers@[m]
                        &&& cache@[m].cols == 1
                    },
                forall|m: int|
                    0 <= m < i ==> #[trigger] forward_step(
                        self.weights@,
                        self.biases@,
                        self.activation.function,
                        cache@,
                        m,
                    ),
            decreases n - i,
        {
            let pre = self.weights[i].dot_prod(&cache[i]);
            let z = pre.add(&self.biases[i]);
            let next = z.map(&self.activation.function);
            let ghost before = cache@;
            cache.push(next);
            proof {
                assert(layer_output(
                    self.weights@[i as int],
                    self.biases@[i as int],
                    before[i as int],
                    self.activation.function,
                    next,
                ));
                assert forall|m: int|
                    0 <= m < i + 1 implies #[trigger] forward_step(
                    self.weights@,
                    self.biases@,
                    self.activation.function,
                    cache@,
                    m,
                ) by {
                    assert(cache@[m] == before[m]);
                    if m < i {
                        assert(forward_step(
                            self.weights@,
                            self.biases@,
                            self.activation.function,
                            before,
                            m,
                        ));
                        assert(cache@[m + 1] == before[m + 1]);
                    }
                }
            }
            i = i + 1;
        }
        let r = cache[n].duplicate();
        self.data = cache;
        r
    }

    /// Corrects every weight and bias from the output layer back to the first,
    /// using the activations cached by the latest forward pass, `predicted` (the
    /// output of that pass) and `targets`.
    pub fn back_propogate(&mut self, predicted: Matrix<T>, targets: Matrix<T>)
        requires
            old(self).wf(),
            old(self).cache_ready(),
            predicted.wf(),
            predicted.rows == old(self).layers@[old(self).layers.len() - 1],
            predicted.cols == 1,
            targets.wf(),
            targets.rows == predicted.rows,
            targets.cols == 1,
            total::<T>(),
            divisible::<T>(),
        ensures
            final(self).wf(),
            final(self).cache_ready(),
            final(self).layers == old(self).layers,
            final(self).data == old(self).data,
            final(self).activation == old(self).activation,
            final(self).learning_rate == old(self).learning_rate,
            exists|es: Seq<Seq<T>>, ds: Seq<Seq<T>>|
                backward_pass(*old(self), *final(self), predicted.data@, targets.data@, es, ds),
    {
        let n = self.layers.len() - 1;
        let one: T = T::from(1u8);
        let two: T = T::from(2u8);
        let factor: T = one / two;
        let mut errors = targets.sub(&predicted);
        let mut gradients = predicted.map(&self.activation.derivative);
        let ghost pre: Self = *self;
        let ghost mut es: Seq<Seq<T>> = Seq::new(n as nat, |k: int| Seq::<T>::empty());
        let ghost mut ds: Seq<Seq<T>> = Seq::new(n as nat, |k: int| Seq::<T>::empty());
        let mut i: usize = n;
        while i > 0
            invariant
                pre == *old(self),
                pre.wf(),
                pre.cache_ready(),
                self.wf(),
                total::<T>(),
                divisible::<T>(),
                n == self.layers.len() - 1,
                self.layers == pre.layers,
                self.data == pre.data,
                self.activation == pre.activation,
                self.learning_rate == pre.learning_rate,
                exact::<T>() ==> factor == half::<T>(),
                i <= n,
                es.len() == n,
                ds.len() == n,
                errors.wf(),
                errors.rows == self.layers@[i as int],
                errors.cols == 1,
                gradients.wf(),
                gradients.rows == self.layers@[i as int],
                gradients.cols == 1,
                i == n ==> (exact::<T>() ==> errors.data@ == diff_of(
                    targets.data@,
                    predicted.data@,
                )),
                i == n ==> derivatives(self.activation.derivative, predicted.data@, gradients.data@),
                i < n ==> (exact::<T>() ==> es[n - 1] == diff_of(targets.data@, predicted.data@)),
                i < n ==> derivatives(self.activation.derivative, predicted.data@, ds[n - 1]),
                i < n ==> (exact::<T>() ==> errors.data@ == product_of(
                    transposed_of(
                        self.weights@[i as int].data@,
                        self.layers@[i + 1] as int,
                        self.layers@[i as int] as int,
                    ),
                    self.layers@[i as int] as int,
                    self.layers@[i + 1] as int,
                    es[i as int],
                    1,
                )),
                i < n ==> derivatives(
                    self.activation.derivative,
                    pre.data@[i as int].data@,
                    gradients.data@,
                ),
                forall|k: int|
                    0 <= k < i ==> #[trigger] self.weights@[k] == pre.weights@[k]
                        && self.biases@[k] == pre.biases@[k],
                forall|k: int| i <= k < n ==> #[trigger] update_step(pre, *self, es, ds, k),
                forall|k: int| i < k < n ==> #[trigger] propagate_step(pre, *self, es, ds, k),
            decreases i,
        {
            let j: usize = i - 1;
            let ghost es0 = es;
            let ghost ds0 = ds;
            let ghost mid: Self = *self;
            proof {
                es = es.update(j as int, errors.data@);
                ds = ds.update(j as int, gradients.data@);
            }
            let had = gradients.elementwise_multiply(&errors);
            let g = had.scale(factor);
            let act_t = self.data[j].transpose();
            let delta = g.dot_prod(&act_t);
            let w_new = self.weights[j].add(&delta);
            let b_new = self.biases[j].add(&g);
            self.weights.set(j, w_new);
            self.biases.set(j, b_new);
            let wt = self.weights[j].transpose();
            errors = wt.dot_prod(&errors);
            gradients = self.data[j].map(&self.activation.derivative);
            proof {
                assert(self.weights@[j as int] == w_new);
                if exact::<T>() {
                    assert(g.data@ == gradient(es, ds, j as int));
                }
                assert(update_step(pre, *self, es, ds, j as int));
                assert forall|k: int| j <= k < n implies #[trigger] update_step(
                    pre,
                    *self,
                    es,
                    ds,
                    k,
                ) by {
                    if k > j {
                        assert(update_step(pre, mid, es0, ds0, k));
                        assert(self.weights@[k] == mid.weights@[k]);
                        assert(self.biases@[k] == mid.biases@[k]);
                        assert(es[k] == es0[k]);
                        assert(ds[k] == ds0[k]);
                    }
                }
                assert forall|k: int| j < k < n implies #[trigger] propagate_step(
                    pre,
                    *self,
                    es,
                    ds,
                    k,
                ) by {
                    assert(self.weights@[k] == mid.weights@[k]);
                    assert(es[k] == es0[k]);
                    if k > j + 1 {
                        assert(propagate_step(pre, mid, es0, ds0, k));
                        assert(es[k - 1] == es0[k - 1]);
                        assert(ds[k - 1] == ds0[k - 1]);
                    }
                }
                assert forall|k: int| 0 <= k < j implies #[trigger] self.weights@[k]
                    == pre.weights@[k] && self.biases@[k] == pre.biases@[k] by {
                    assert(mid.weights@[k] == pre.weights@[k]);
                    assert(mid.biases@[k] == pre.biases@[k]);
                }
                if j + 1 < n {
                    assert(es[n - 1] == es0[n - 1]);
                    assert(ds[n - 1] == ds0[n - 1]);
                }
            }
            i = j;
        }
        proof {
            assert(backward_pass(pre, *self, predicted.data@, targets.data@, es, ds));
        }
    }

    /// Trains for `epochs` passes over the examples, in order: each example's
    /// input goes forward, then its output and target go backward.
    pub fn train(&mut self, inputs: Vec<Vec<T>>, targets: Vec<Vec<T>>, epochs: u32)
        requires
            old(self).wf(),
            total::<T>(),
            divisible::<T>(),
            inputs.len() == targets.len(),
            forall|j: int|
                0 <= j < inputs.len() ==> (#[trigger] inputs@[j]).len() == old(self).layers@[0],
            forall|j: int|
                0 <= j < targets.len() ==> (#[trigger] targets@[j]).len() == old(
                    self,
                ).layers@[old(self).layers.len() - 1],
        ensures
            final(self).wf(),
            final(self).layers == old(self).layers,
            final(self).activation == old(self).activation,
            final(self).learning_rate == old(self).learning_rate,
            epochs > 0 && inputs.len() > 0 ==> final(self).cache_ready(),
            epochs == 0 || inputs.len() == 0 ==> *final(self) == *old(self),
            exists|states: Seq<Self>|
                {
                    &&& states.len() == epochs * inputs.len() + 1
                    &&& states[0] == *old(self)
                    &&& states.last() == *final(self)
                    &&& forall|k: int|
                        0 <= k < epochs * inputs.len() ==> #[trigger] training_step(
                            states[k],
                            states[k + 1],
                            inputs@[k % inputs.len() as int]@,
                            targets@[k % inputs.len() as int]@,
                        )
                },
    {
        let ghost n = inputs.len() as int;
        let ghost mut states: Seq<Self> = seq![*self];
        let mut epoch: u32 = 0;
        while epoch < epochs
            invariant
                epoch <= epochs,
                self.wf(),
                total::<T>(),
                divisible::<T>(),
                self.layers == old(self).layers,
                self.activation == old(self).activation,
                self.learning_rate == old(self).learning_rate,
                inputs.len() == targets.len(),
                forall|j: int|
                    0 <= j < inputs.len() ==> (#[trigger] inputs@[j]).len() == self.layers@[0],
                forall|j: int|
                    0 <= j < targets.len() ==> (#[trigger] targets@[j]).len()
                        == self.layers@[self.layers.len() - 1],
                epoch > 0 && inputs.len() > 0 ==> self.cache_ready(),
                inputs.len() == 0 || epoch == 0 ==> *self == *old(self),
                n == inputs.len(),
                states.len() == epoch * n + 1,
                states[0] == *old(self),
                states.last() == *self,
                forall|k: int|
                    0 <= k < epoch * n ==> #[trigger] training_step(
                        states[k],
                        states[k + 1],
                        inputs@[k % n]@,
                        targets@[k % n]@,
                    ),
            decreases epochs - epoch,
        {
            let mut j: usize = 0;
            while j < inputs.len()
                invariant
                    self.wf(),
                    total::<T>(),
                    divisible::<T>(),
                    self.layers == old(self).layers,
                    self.activation == old(self).activation,
                    self.learning_rate == old(self).learning_rate,
                    inputs.len() == targets.len(),
                    forall|m: int|
                        0 <= m < inputs.len() ==> (#[trigger] inputs@[m]).len() == self.layers@[0],
                    forall|m: int|
                        0 <= m < targets.len() ==> (#[trigger] targets@[m]).len()
                            == self.layers@[self.layers.len() - 1],
                    j <= inputs.len(),
                    (epoch > 0 || j > 0) && inputs.len() > 0 ==> self.cache_ready(),
                    inputs.len() == 0 || (epoch == 0 && j == 0) ==> *self == *old(self),
                    epoch < epochs,
                    n == inputs.len(),
                    states.len() == epoch * n + j + 1,
                    states[0] == *old(self),
                    states.last() == *self,
                    forall|k: int|
                        0 <= k < epoch * n + j ==> #[trigger] training_step(
                            states[k],
                            states[k + 1],
                            inputs@[k % n]@,
                            targets@[k % n]@,
                        ),
                decreases inputs.len() - j,
            {
                let ghost prev: Self = *self;
                let x = Matrix::from(copy_row(&inputs[j]));
                let outputs = self.feed_forward(x);
                let ghost mid: Self = *self;
                let y = Matrix::from(copy_row(&targets[j]));
                self.back_propogate(outputs, y);
                proof {
                    let (es, ds) = choose|es: Seq<Seq<T>>, ds: Seq<Seq<T>>|
                        backward_pass(mid, *self, outputs.data@, y.data@, es, ds);
                    assert(forward_pass(prev, mid, inputs@[j as int]@));
                    assert(backward_pass(
                        mid,
                        *self,
                        mid.data@[mid.data.len() - 1].data@,
                        targets@[j as int]@,
                        es,
                        ds,
                    ));
                    let k = epoch * n + j;
                    vstd::arithmetic::div_mod::lemma_fundamental_div_mod_converse(
                        k,
                        n,
                        epoch as int,
                        j as int,
                    );
                    assert(k % n == j);
                    assert(training_step(prev, *self, inputs@[k % n]@, targets@[k % n]@));
                    let old_states = states;
                    states = states.push(*self);
                    assert forall|m: int|
                        0 <= m < epoch * n + j + 1 implies #[trigger] training_step(
                        states[m],
                        states[m + 1],
                        inputs@[m % n]@,
                        targets@[m % n]@,
                    ) by {
                        if m < k {
                            assert(states[m] == old_states[m]);
                            assert(states[m + 1] == old_states[m + 1]);
                        }
                    }
                }
                j = j + 1;
            }
            proof {
                assert((epoch + 1) * n == epoch * n + n) by (nonlinear_arith);
            }
            epoch = epoch + 1;
        }
    }
}

} // verus!
