use exotic::{
    onehot, plan_regions, random, sigmoid, Activation, ActivationKind, DenseHeapLayer, DenseLayer,
    Layer, LayerKind, Model, ModelError, Scalar, Softmax,
};

#[derive(Clone, Copy, Debug, PartialEq)]
struct F(f32);

impl Scalar for F {
    fn spec_zero() -> F {
        F(0.0)
    }
    fn spec_one() -> F {
        F(1.0)
    }
    fn spec_from_ratio(n: u64, d: u64) -> F {
        F::from_ratio(n, d)
    }
    fn spec_add(self, o: F) -> F {
        self.add(o)
    }
    fn spec_sub(self, o: F) -> F {
        self.sub(o)
    }
    fn spec_mul(self, o: F) -> F {
        self.mul(o)
    }
    fn spec_div(self, o: F) -> F {
        self.div(o)
    }
    fn spec_neg(self) -> F {
        self.neg()
    }
    fn spec_exp(self) -> F {
        self.exp()
    }
    fn spec_tanh(self) -> F {
        self.tanh()
    }
    fn spec_is_positive(self) -> bool {
        self.is_positive()
    }
    fn zero() -> F {
        F(0.0)
    }
    fn one() -> F {
        F(1.0)
    }
    fn from_ratio(n: u64, d: u64) -> F {
        F((n as f64 / d as f64) as f32)
    }
    fn add(self, o: F) -> F {
        F(self.0 + o.0)
    }
    fn sub(self, o: F) -> F {
        F(self.0 - o.0)
    }
    fn mul(self, o: F) -> F {
        F(self.0 * o.0)
    }
    fn div(self, o: F) -> F {
        F(self.0 / o.0)
    }
    fn neg(self) -> F {
        F(-self.0)
    }
    fn exp(self) -> F {
        F(self.0.exp())
    }
    fn tanh(self) -> F {
        F(self.0.tanh())
    }
    fn is_positive(self) -> bool {
        self.0 > 0.0
    }
}

fn fs(v: &[f32]) -> Vec<F> {
    v.iter().map(|x| F(*x)).collect()
}

fn plain(v: &[F]) -> Vec<f32> {
    v.iter().map(|x| x.0).collect()
}

/// Deterministic draws for initialising dense layers.
fn draws(seed: u64, count: usize) -> Vec<u32> {
    let mut state = seed;
    (0..count)
        .map(|_| {
            state = state
                .wrapping_mul(6364136223846793005)
                .wrapping_add(1442695040888963407);
            (state >> 32) as u32
        })
        .collect()
}

fn dense(seed: u64, input_len: usize, output_len: usize, lr: f32) -> DenseHeapLayer<F> {
    let d = draws(seed, output_len * input_len + output_len);
    DenseHeapLayer::from_draws(input_len, output_len, F(lr), &d)
}

fn cost(o: &[F], y: &[f32]) -> f32 {
    o.iter().zip(y.iter()).map(|(o, y)| (o.0 - y).powi(2)).sum::<f32>().abs()
}

#[test]
fn regions_are_laid_out_back_to_back() {
    let (offsets, total) = plan_regions(&vec![2, 3, 4]).unwrap();
    assert_eq!(offsets, vec![0, 2, 5]);
    assert_eq!(total, 9);
    for i in 1..3 {
        assert_eq!(offsets[i], offsets[i - 1] + [2, 3, 4][i - 1]);
    }
}

#[test]
fn regions_of_no_layers() {
    assert_eq!(plan_regions(&vec![]), Some((vec![], 0)));
}

#[test]
fn regions_too_large() {
    assert_eq!(plan_regions(&vec![usize::MAX, 1]), None);
    assert_eq!(plan_regions(&vec![usize::MAX, 0]), Some((vec![0, usize::MAX], usize::MAX)));
}

#[test]
fn compiled_model_takes_widths_of_its_ends() {
    let layers = vec![
        LayerKind::Dense(dense(1, 4, 3, 0.1)),
        LayerKind::Activation(Activation::new(ActivationKind::Tanh, 3)),
        LayerKind::Dense(dense(2, 3, 2, 0.1)),
        LayerKind::Softmax(Softmax::new(2)),
    ];
    let m = Model::compile(4, 2, layers).unwrap();
    assert_eq!(m.input_width, 4);
    assert_eq!(m.output_width, 2);
    assert_eq!(m.offsets, vec![0, 3, 6, 8]);
    assert_eq!(m.cache_width, 10);
    assert_eq!(m.output_region(), (8, 10));
    assert_eq!(m.new_cache().len(), 10);
}

#[test]
fn compile_refuses_no_layers() {
    let r = Model::<F>::compile(2, 2, vec![]);
    assert_eq!(r.unwrap_err(), ModelError::NoLayers);
}

#[test]
fn compile_refuses_wrong_input_width() {
    let layers = vec![LayerKind::Dense(dense(1, 4, 2, 0.1)), LayerKind::Softmax(Softmax::new(2))];
    let r = Model::compile(3, 2, layers);
    assert_eq!(r.unwrap_err(), ModelError::ConfigurationMismatch { boundary: 0 });
}

#[test]
fn compile_refuses_mismatched_neighbours() {
    let layers = vec![
        LayerKind::Dense(dense(1, 4, 2, 0.1)),
        LayerKind::Softmax(Softmax::new(3)),
        LayerKind::Activation(Activation::new(ActivationKind::Relu, 5)),
    ];
    let r = Model::compile(4, 3, layers);
    assert_eq!(r.unwrap_err(), ModelError::ConfigurationMismatch { boundary: 1 });
}

#[test]
fn compile_refuses_wrong_output_width() {
    let layers = vec![LayerKind::Dense(dense(1, 4, 2, 0.1)), LayerKind::Softmax(Softmax::new(2))];
    let r = Model::compile(4, 3, layers);
    assert_eq!(r.unwrap_err(), ModelError::ConfigurationMismatch { boundary: 2 });
}

#[test]
fn compile_refuses_oversized_cache() {
    let layers: Vec<LayerKind<F>> = vec![
        LayerKind::Activation(Activation::new(ActivationKind::Identity, usize::MAX)),
        LayerKind::Activation(Activation::new(ActivationKind::Identity, usize::MAX)),
    ];
    let r = Model::compile(usize::MAX, usize::MAX, layers);
    assert_eq!(r.unwrap_err(), ModelError::CacheTooLarge);
}

#[test]
fn softmax_sums_to_one() {
    let s = Softmax::new(5);
    let input = fs(&[1.0, 2.0, 3.0, -1.0, 0.5]);
    let mut out = vec![F(0.0); 5];
    s.predict(&input, &mut out);
    let sum: f32 = out.iter().map(|x| x.0).sum();
    assert!((sum - 1.0).abs() < 1e-5);
    assert!(out.iter().all(|x| x.0 >= 0.0 && x.0 <= 1.0));
    assert!(out[2].0 > out[1].0 && out[1].0 > out[0].0);
}

#[test]
fn softmax_stays_finite_on_large_inputs() {
    let s = Softmax::new(3);
    let input = fs(&[1000.0, 1001.0, 999.0]);
    let mut out = vec![F(0.0); 3];
    s.predict(&input, &mut out);
    let sum: f32 = out.iter().map(|x| x.0).sum();
    assert!(out.iter().all(|x| x.0.is_finite() && x.0 >= 0.0 && x.0 <= 1.0));
    assert!((sum - 1.0).abs() < 1e-5);
    assert!(out[1].0 > out[0].0 && out[0].0 > out[2].0);
}

#[test]
fn softmax_gradient_uses_the_diagonal() {
    let mut s = Softmax::new(2);
    let output = fs(&[0.25, 0.75]);
    let g = s.backpropagate(&fs(&[0.0, 0.0]), &output, &fs(&[1.0, 2.0]));
    assert_eq!(plain(&g), vec![0.1875, 0.375]);
}

#[test]
fn relu_derivative_is_a_step() {
    assert_eq!(ActivationKind::Relu.derivative(F(-2.0)), F(0.0));
    assert_eq!(ActivationKind::Relu.derivative(F(-1e-30)), F(0.0));
    assert_eq!(ActivationKind::Relu.derivative(F(3.0)), F(1.0));
    assert_eq!(ActivationKind::Relu.derivative(F(1e-30)), F(1.0));
    assert_eq!(ActivationKind::Relu.derivative(F(0.0)), F(0.0));
    assert_eq!(ActivationKind::Relu.apply(F(-2.0)), F(0.0));
    assert_eq!(ActivationKind::Relu.apply(F(2.5)), F(2.5));
}

#[test]
fn activation_closed_forms() {
    assert_eq!(sigmoid(F(0.0)), F(0.5));
    assert_eq!(ActivationKind::Sigmoid.apply(F(0.0)), F(0.5));
    assert_eq!(ActivationKind::Sigmoid.derivative(F(0.0)), F(0.25));
    assert_eq!(ActivationKind::Tanh.apply(F(0.0)), F(0.0));
    assert_eq!(ActivationKind::Tanh.derivative(F(0.0)), F(1.0));
    assert_eq!(ActivationKind::Swish.apply(F(0.0)), F(0.0));
    assert_eq!(ActivationKind::Swish.derivative(F(0.0)), F(0.5));
    assert_eq!(ActivationKind::Identity.apply(F(-3.5)), F(-3.5));
    assert_eq!(ActivationKind::Identity.derivative(F(-3.5)), F(1.0));
    assert_eq!(ActivationKind::Square.apply(F(3.0)), F(9.0));
    assert_eq!(ActivationKind::Square.derivative(F(3.0)), F(6.0));
    let t = ActivationKind::Tanh.derivative(F(0.5)).0;
    assert!((t - (1.0 - 0.5f32.tanh().powi(2))).abs() < 1e-6);
}

#[test]
fn activation_layer_maps_each_element() {
    let mut a = Activation::new(ActivationKind::Square, 3);
    let mut out = vec![F(0.0); 3];
    a.predict(&fs(&[1.0, -2.0, 3.0]), &mut out);
    assert_eq!(plain(&out), vec![1.0, 4.0, 9.0]);
    let g = a.backpropagate(&fs(&[1.0, -2.0, 3.0]), &out, &fs(&[1.0, 1.0, 0.5]));
    assert_eq!(plain(&g), vec![2.0, -4.0, 3.0]);
}

#[test]
fn dense_forward_is_affine() {
    let d = DenseLayer {
        weights: fs(&[1.0, 2.0, 3.0, 4.0, 5.0, 6.0]),
        biasies: fs(&[0.5, -1.0]),
        lr: F(0.1),
        input_len: 3,
        output_len: 2,
    };
    let mut out = vec![F(0.0); 2];
    d.predict(&fs(&[1.0, 1.0, 1.0]), &mut out);
    assert_eq!(plain(&out), vec![6.5, 14.0]);
    d.predict(&fs(&[1.0, 0.0, -1.0]), &mut out);
    assert_eq!(plain(&out), vec![-1.5, -3.0]);
}

#[test]
fn dense_gradient_reads_weights_before_update() {
    let mut d = DenseLayer {
        weights: fs(&[2.0, -1.0]),
        biasies: fs(&[1.0]),
        lr: F(0.5),
        input_len: 2,
        output_len: 1,
    };
    let g = d.backpropagate(&fs(&[3.0, 4.0]), &fs(&[0.0]), &fs(&[1.0]));
    assert_eq!(plain(&g), vec![2.0, -1.0]);
    assert_eq!(plain(&d.biasies), vec![0.5]);
    assert_eq!(plain(&d.weights), vec![0.5, -3.0]);
    assert_eq!(d.lr, F(0.5));
}

#[test]
fn dense_initial_values_follow_the_draws() {
    let d: DenseHeapLayer<F> =
        DenseHeapLayer::from_draws(1, 1, F(0.1), &vec![0x8000_0000, 0]);
    assert_eq!(d.weights, vec![F(0.0)]);
    assert_eq!(d.biasies, vec![F(-0.5)]);
    assert_eq!((d.input_len, d.output_len), (1, 1));
    let e: DenseHeapLayer<F> = DenseHeapLayer::from_draws(0, 0, F(0.1), &vec![]);
    assert!(e.weights.is_empty() && e.biasies.is_empty());
}

#[test]
fn dense_random_stays_in_the_xavier_range() {
    let d: DenseHeapLayer<F> = DenseHeapLayer::random(3, 2, F(0.01));
    assert_eq!(d.weights.len(), 6);
    assert_eq!(d.biasies.len(), 2);
    assert_eq!(d.lr, F(0.01));
    let bound = 1.0 / 5.0;
    assert!(d.weights.iter().chain(d.biasies.iter()).all(|w| w.0 >= -bound && w.0 <= bound));
    let first = d.weights[0];
    assert!(d.weights.iter().chain(d.biasies.iter()).any(|w| *w != first));
}

#[test]
fn random_draws_lie_in_the_unit_interval() {
    let values: Vec<F> = (0..100).map(|_| random::<F>()).collect();
    assert!(values.iter().all(|v| v.0 >= 0.0 && v.0 <= 1.0));
    assert!(values.iter().any(|v| *v != values[0]));
}

#[test]
fn onehot_marks_one_position() {
    let v: Vec<F> = onehot(3, 1);
    assert_eq!(plain(&v), vec![0.0, 1.0, 0.0]);
}

#[test]
fn gradient_has_the_input_width() {
    let layers = vec![
        LayerKind::Dense(dense(3, 5, 4, 0.01)),
        LayerKind::Activation(Activation::new(ActivationKind::Sigmoid, 4)),
        LayerKind::Dense(dense(4, 4, 3, 0.01)),
        LayerKind::Activation(Activation::new(ActivationKind::Swish, 3)),
        LayerKind::Dense(dense(5, 3, 2, 0.01)),
        LayerKind::Softmax(Softmax::new(2)),
    ];
    let mut m = Model::compile(5, 2, layers).unwrap();
    let input = fs(&[0.1, 0.2, 0.3, 0.4, 0.5]);
    let mut cache = m.new_cache();
    m.predict_buffered(&input, &mut cache);
    let g = m.backpropagate(&input, &cache, &fs(&[0.5, -0.5]));
    assert_eq!(g.len(), 5);
    assert_eq!(m.offsets, vec![0, 4, 8, 11, 14, 16]);
}

#[test]
fn basic_with_no_macro() {
    let mut l0: DenseLayer<F> = DenseLayer::random(4, 2, F(0.1));
    let mut l1 = Softmax::new(2);
    let y = [0.0f32, 1.0];
    let i = fs(&[0.0, 1.0, 2.0, 3.0]);
    let forward = |l0: &DenseLayer<F>, l1: &Softmax| {
        let mut hidden = vec![F(0.0); 2];
        l0.predict(&i, &mut hidden);
        let mut o = vec![F(0.0); 2];
        l1.predict(&hidden, &mut o);
        (hidden, o)
    };
    for _ in 0..5000 {
        let (hidden, o) = forward(&l0, &l1);
        let dy: Vec<F> = (0..2).map(|n| F(o[n].0 - y[n])).collect();
        let hidden_delta = l1.backpropagate(&hidden, &o, &dy);
        l0.backpropagate(&i, &hidden, &hidden_delta);
    }
    let (_, o) = forward(&l0, &l1);
    let cost = cost(&o, &y);
    assert!(cost < 0.0001, "Found {o:?}, expecteed {y:?} (cost: {cost})");
}

#[test]
fn buffered_and_unbuffered_predict_agree() {
    let layers = vec![
        LayerKind::Dense(dense(21, 4, 3, 0.01)),
        LayerKind::Activation(Activation::new(ActivationKind::Tanh, 3)),
        LayerKind::Dense(dense(22, 3, 3, 0.01)),
        LayerKind::Activation(Activation::new(ActivationKind::Relu, 3)),
        LayerKind::Dense(dense(23, 3, 2, 0.01)),
        LayerKind::Softmax(Softmax::new(2)),
    ];
    let net = Model::compile(4, 2, layers).unwrap();
    let input = fs(&[0.3, -1.2, 2.0, 0.7]);
    let mut buffer = net.new_cache();
    net.predict_buffered(&input, &mut buffer);
    let buffered = net.output_of(&buffer).to_vec();
    let unbuffered = net.predict(&input);
    assert_eq!(
        buffered.iter().map(|x| x.0.to_bits()).collect::<Vec<_>>(),
        unbuffered.iter().map(|x| x.0.to_bits()).collect::<Vec<_>>()
    );
}

#[test]
fn model_is_a_layer() {
    let layers = vec![LayerKind::Dense(dense(31, 2, 2, 0.1)), LayerKind::Softmax(Softmax::new(2))];
    let mut net = Model::compile(2, 2, layers).unwrap();
    assert_eq!(Layer::<F>::buffer_width(&net), 4);
    let mut buffer = vec![F(0.0); 4];
    Layer::predict(&net, &fs(&[1.0, 2.0]), &mut buffer);
    let g = Layer::backpropagate(&mut net, &fs(&[1.0, 2.0]), &buffer, &fs(&[0.1, -0.1]));
    assert_eq!(g.len(), 2);
}
