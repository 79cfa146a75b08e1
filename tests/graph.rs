use ktensor::context::Context;
use ktensor::node::Graph;
use ktensor::op::{add_value, calc_dim, dot_value, Kernel, Op};
use ktensor::run::{execute, op_gradient, train};
use ktensor::{Tensor, TensorError, Vec2};
use rand::distributions::{IndependentSample, Normal};

/// Floating-point operations for the graphs under test.
struct Float;

fn relu(a: f64) -> f64 {
    if a > 16.0 {
        a
    } else if a < -16.0 {
        a / 16.0
    } else {
        a / 16.0 + 0.9375 * (1.0 + a.exp()).ln()
    }
}

fn relu_prime(a: f64) -> f64 {
    if a > 16.0 {
        1.0
    } else if a < -16.0 {
        1.0 / 16.0
    } else {
        0.0625 + 0.9375 / (1.0 + (-a).exp())
    }
}

fn sigmoid(a: f64) -> f64 {
    if a >= 0.0 {
        1.0 / (1.0 + (-a).exp())
    } else {
        let z = a.exp();
        z / (1.0 + z)
    }
}

fn map(t: &Tensor<f64>, f: fn(f64) -> f64) -> Tensor<f64> {
    let d = t.dim();
    let mut buf = Vec::new();
    for i in 0..d.0 {
        for j in 0..d.1 {
            buf.push(f(t.get(Vec2(i, j))));
        }
    }
    Tensor::from_vec(d, buf).unwrap()
}

fn zip(a: &Tensor<f64>, b: &Tensor<f64>, f: fn(f64, f64) -> f64) -> Tensor<f64> {
    let d = a.dim();
    let mut buf = Vec::new();
    for i in 0..d.0 {
        for j in 0..d.1 {
            buf.push(f(a.get(Vec2(i, j)), b.get(Vec2(i, j))));
        }
    }
    Tensor::from_vec(d, buf).unwrap()
}

fn softmax(z: &Tensor<f64>) -> Tensor<f64> {
    let d = z.dim();
    let mut buf = Vec::new();
    for i in 0..d.0 {
        let mut m = f64::NEG_INFINITY;
        for j in 0..d.1 {
            m = m.max(z.get(Vec2(i, j)));
        }
        let e: Vec<f64> = (0..d.1).map(|j| (z.get(Vec2(i, j)) - m).exp()).collect();
        let total: f64 = e.iter().sum();
        for x in e {
            buf.push(x / total);
        }
    }
    Tensor::from_vec(d, buf).unwrap()
}

impl Kernel<f64> for Float {
    fn value(&self, op: Op, inputs: &Vec<Tensor<f64>>) -> Result<Tensor<f64>, TensorError> {
        match op {
            Op::Relu => Ok(map(&inputs[0], relu)),
            Op::Sigmoid => Ok(map(&inputs[0], sigmoid)),
            Op::Softmax => Ok(softmax(&inputs[0])),
            Op::SoftmaxCrossEntropy => {
                let s = &inputs[0];
                let y = &inputs[1];
                let d = s.dim();
                let mut total = 0.0;
                for i in 0..d.0 {
                    for j in 0..d.1 {
                        total -= y.get(Vec2(i, j)) * s.get(Vec2(i, j)).ln();
                    }
                }
                Tensor::from_vec(Vec2(1, 1), vec![total / d.0 as f64])
            },
            _ => Err(TensorError::WrongArity { needed: 0, given: inputs.len() }),
        }
    }

    fn gradient(&self, op: Op, gradient: &Tensor<f64>, inputs: &Vec<Tensor<f64>>) -> Result<Vec<Tensor<f64>>, TensorError> {
        match op {
            Op::Relu => Ok(vec![zip(&map(&inputs[0], relu_prime), gradient, |a, g| a * g)]),
            Op::Sigmoid => Ok(vec![zip(&map(&inputs[0], sigmoid), gradient, |s, g| g * s * (1.0 - s))]),
            Op::SoftmaxCrossEntropy => {
                let ds = zip(&inputs[0], &inputs[1], |s, y| s - y);
                Ok(vec![ds, map(&inputs[1], |_| 0.0)])
            },
            _ => Err(TensorError::WrongArity { needed: 0, given: inputs.len() }),
        }
    }

    fn mean(&self, sum: f64, count: usize) -> f64 {
        sum / count as f64
    }
}

/// Integer arithmetic for graphs that need no kernel operation.
struct Exact;

impl Kernel<i64> for Exact {
    fn value(&self, _: Op, inputs: &Vec<Tensor<i64>>) -> Result<Tensor<i64>, TensorError> {
        Err(TensorError::WrongArity { needed: 0, given: inputs.len() })
    }

    fn gradient(&self, _: Op, _: &Tensor<i64>, inputs: &Vec<Tensor<i64>>) -> Result<Vec<Tensor<i64>>, TensorError> {
        Err(TensorError::WrongArity { needed: 0, given: inputs.len() })
    }

    fn mean(&self, sum: i64, count: usize) -> i64 {
        sum / count as i64
    }
}

fn tensor(rows: usize, cols: usize, values: &[f64]) -> Tensor<f64> {
    Tensor::from_vec(Vec2(rows, cols), values.to_vec()).unwrap()
}

fn values(t: &Tensor<f64>) -> Vec<f64> {
    let d = t.dim();
    let mut out = Vec::new();
    for i in 0..d.0 {
        for j in 0..d.1 {
            out.push(t.get(Vec2(i, j)));
        }
    }
    out
}

fn bind(graph: &Graph, ctx: &mut Context<f64>, node: usize, t: Tensor<f64>) {
    ctx.set(graph.get_id(node), t);
}

/// A small deterministic sequence in [-1, 1].
fn sample(seed: u64, n: usize) -> Vec<f64> {
    let mut x = seed;
    (0..n)
        .map(|_| {
            x = x.wrapping_mul(6364136223846793005).wrapping_add(1442695040888963407);
            ((x >> 11) as f64 / (1u64 << 53) as f64) * 2.0 - 1.0
        })
        .collect()
}

#[test]
fn determinism_of_execute() {
    let mut g = Graph::new();
    let x = g.variable("x".to_string(), Vec2(0, 3)).unwrap();
    let w = g.state("w".to_string(), Vec2(3, 2)).unwrap();
    let b = g.state("b".to_string(), Vec2(1, 2)).unwrap();
    let d = g.dot("d".to_string(), x, w).unwrap();
    let a = g.add("a".to_string(), d, b).unwrap();
    let r = g.relu("r".to_string(), a).unwrap();
    let y = g.softmax("y".to_string(), r).unwrap();
    let mut state = Context::new();
    bind(&g, &mut state, w, tensor(3, 2, &sample(1, 6)));
    bind(&g, &mut state, b, tensor(1, 2, &sample(2, 2)));
    let mut variables = Context::new();
    bind(&g, &mut variables, x, tensor(4, 3, &sample(3, 12)));
    let first = execute(&g, y, &state, &variables, &Float).unwrap();
    let second = execute(&g, y, &state, &variables, &Float).unwrap();
    let (d1, d2) = (first.dim(), second.dim());
    assert_eq!((d1.0, d1.1), (4, 2));
    assert_eq!((d1.0, d1.1), (d2.0, d2.1));
    let (v1, v2) = (values(&first), values(&second));
    for (p, q) in v1.iter().zip(v2.iter()) {
        assert_eq!(p.to_bits(), q.to_bits());
    }
}

#[test]
fn dot_shape_law() {
    let mut g = Graph::new();
    let a = g.state("a".to_string(), Vec2(3, 4)).unwrap();
    let b = g.state("b".to_string(), Vec2(4, 5)).unwrap();
    let c = g.state("c".to_string(), Vec2(3, 5)).unwrap();
    let d = g.dot("d".to_string(), a, b).unwrap();
    let dim = g.get_dim(d);
    assert_eq!((dim.0, dim.1), (3, 5));
    let before = g.len();
    match g.dot("bad".to_string(), a, c) {
        Err(TensorError::ShapeMismatch { expected, found }) => {
            assert_eq!((expected.0, expected.1), (3, 4));
            assert_eq!((found.0, found.1), (3, 5));
        },
        _ => panic!("a dot of (3, 4) and (3, 5) must fail at construction"),
    }
    assert_eq!(g.len(), before);
}

#[test]
fn calc_dim_rules() {
    let dims = vec![Vec2(2, 3), Vec2(3, 4)];
    let d = calc_dim(Op::Dot, &dims).unwrap();
    assert_eq!((d.0, d.1), (2, 4));
    assert!(calc_dim(Op::Add, &dims).is_err());
    let d = calc_dim(Op::Add, &vec![Vec2(5, 3), Vec2(1, 3)]).unwrap();
    assert_eq!((d.0, d.1), (5, 3));
    let d = calc_dim(Op::SoftmaxCrossEntropy, &vec![Vec2(5, 3), Vec2(5, 3)]).unwrap();
    assert_eq!((d.0, d.1), (1, 1));
    let d = calc_dim(Op::Sigmoid, &vec![Vec2(5, 3)]).unwrap();
    assert_eq!((d.0, d.1), (5, 3));
    assert!(matches!(calc_dim(Op::Relu, &dims), Err(TensorError::WrongArity { needed: 1, given: 2 })));
}

#[test]
fn broadcast_law() {
    let batch = tensor(4, 2, &[1.0, 2.0, 3.0, 4.0, 5.0, 6.0, 7.0, 8.0]);
    let bias = tensor(1, 2, &[10.0, 20.0]);
    let sum = add_value(&batch, &bias).unwrap();
    let d = sum.dim();
    assert_eq!((d.0, d.1), (4, 2));
    for i in 0..4 {
        for j in 0..2 {
            assert_eq!(sum.get(Vec2(i, j)), batch.get(Vec2(i, j)) + bias.get(Vec2(0, j)));
        }
    }
    let wrong = tensor(1, 3, &[1.0, 2.0, 3.0]);
    assert!(matches!(add_value(&batch, &wrong), Err(TensorError::ShapeMismatch { .. })));
}

#[test]
fn broadcast_through_graph() {
    let mut g = Graph::new();
    let x = g.variable("x".to_string(), Vec2(0, 2)).unwrap();
    let b = g.state("b".to_string(), Vec2(1, 2)).unwrap();
    let a = g.add("a".to_string(), x, b).unwrap();
    let mut state = Context::new();
    bind(&g, &mut state, b, tensor(1, 2, &[0.5, -0.5]));
    let mut variables = Context::new();
    bind(&g, &mut variables, x, tensor(3, 2, &[1.0, 1.0, 2.0, 2.0, 3.0, 3.0]));
    let out = execute(&g, a, &state, &variables, &Float).unwrap();
    assert_eq!(values(&out), vec![1.5, 0.5, 2.5, 1.5, 3.5, 2.5]);
}

#[test]
fn softmax_law() {
    let rows = [[1.0, 2.0, 3.0], [-5.0, 0.0, 5.0], [700.0, 700.5, 699.0]];
    let flat: Vec<f64> = rows.iter().flatten().cloned().collect();
    let mut g = Graph::new();
    let z = g.variable("z".to_string(), Vec2(0, 3)).unwrap();
    let s = g.softmax("s".to_string(), z).unwrap();
    let state = Context::new();
    let mut variables = Context::new();
    bind(&g, &mut variables, z, tensor(3, 3, &flat));
    let out = execute(&g, s, &state, &variables, &Float).unwrap();
    let shifted: Vec<f64> = flat.iter().enumerate().map(|(k, v)| v + (k / 3) as f64 * 7.25).collect();
    bind(&g, &mut variables, z, tensor(3, 3, &shifted));
    let out2 = execute(&g, s, &state, &variables, &Float).unwrap();
    for i in 0..3 {
        let total: f64 = (0..3).map(|j| out.get(Vec2(i, j))).sum();
        assert!((total - 1.0).abs() < 1e-9);
        for j in 0..3 {
            assert!((out.get(Vec2(i, j)) - out2.get(Vec2(i, j))).abs() < 1e-9);
        }
    }
}

/// The sum of `weights` times `f(x)`, elementwise.
fn weighted(f: &dyn Fn(&Tensor<f64>) -> Tensor<f64>, x: &Tensor<f64>, weights: &[f64]) -> f64 {
    values(&f(x)).iter().zip(weights.iter()).map(|(a, w)| a * w).sum()
}

fn finite_difference(f: &dyn Fn(&Tensor<f64>) -> Tensor<f64>, x: &Tensor<f64>, weights: &[f64]) -> Vec<f64> {
    let d = x.dim();
    let base = values(x);
    let h = 1e-6;
    (0..base.len())
        .map(|k| {
            let mut up = base.clone();
            up[k] += h;
            let mut down = base.clone();
            down[k] -= h;
            let cu = weighted(f, &tensor(d.0, d.1, &up), weights);
            let cd = weighted(f, &tensor(d.0, d.1, &down), weights);
            (cu - cd) / (2.0 * h)
        })
        .collect()
}

fn assert_close(a: &[f64], b: &[f64]) {
    assert_eq!(a.len(), b.len());
    for (p, q) in a.iter().zip(b.iter()) {
        assert!((p - q).abs() < 1e-5, "{} differs from {}", p, q);
    }
}

#[test]
fn gradient_check() {
    let a = tensor(2, 3, &sample(11, 6));
    let b = tensor(3, 2, &sample(12, 6));
    let wd = sample(13, 4);
    let g = tensor(2, 2, &wd);
    let grads = op_gradient(Op::Dot, &g, &vec![a.duplicate(), b.duplicate()], &Float).unwrap();
    let fa = |x: &Tensor<f64>| dot_value(x, &b).unwrap();
    let fb = |x: &Tensor<f64>| dot_value(&a, x).unwrap();
    assert_close(&values(&grads[0]), &finite_difference(&fa, &a, &wd));
    assert_close(&values(&grads[1]), &finite_difference(&fb, &b, &wd));

    let c = tensor(2, 3, &sample(14, 6));
    let wa = sample(15, 6);
    let ga = tensor(2, 3, &wa);
    let grads = op_gradient(Op::Add, &ga, &vec![a.duplicate(), c.duplicate()], &Float).unwrap();
    let fa = |x: &Tensor<f64>| add_value(x, &c).unwrap();
    let fc = |x: &Tensor<f64>| add_value(&a, x).unwrap();
    assert_close(&values(&grads[0]), &finite_difference(&fa, &a, &wa));
    assert_close(&values(&grads[1]), &finite_difference(&fc, &c, &wa));

    let z = tensor(2, 3, &[-20.0, -1.5, -0.2, 0.3, 2.0, 20.0]);
    let grads = op_gradient(Op::Relu, &ga, &vec![z.duplicate()], &Float).unwrap();
    let fr = |x: &Tensor<f64>| map(x, relu);
    assert_close(&values(&grads[0]), &finite_difference(&fr, &z, &wa));
    let grads = op_gradient(Op::Sigmoid, &ga, &vec![z.duplicate()], &Float).unwrap();
    let fs = |x: &Tensor<f64>| map(x, sigmoid);
    assert_close(&values(&grads[0]), &finite_difference(&fs, &z, &wa));
}

#[test]
fn broadcast_gradient_is_column_mean() {
    let a = tensor(2, 2, &[1.0, 2.0, 3.0, 4.0]);
    let b = tensor(1, 2, &[0.0, 0.0]);
    let g = tensor(2, 2, &[1.0, 2.0, 3.0, 6.0]);
    let grads = op_gradient(Op::Add, &g, &vec![a, b], &Float).unwrap();
    assert_eq!(values(&grads[0]), vec![1.0, 2.0, 3.0, 6.0]);
    assert_eq!(values(&grads[1]), vec![2.0, 4.0]);
}

#[test]
fn single_step_training_law() {
    let mut g = Graph::new();
    let s = g.state("s".to_string(), Vec2(1, 1)).unwrap();
    let mut state = Context::new();
    bind(&g, &mut state, s, tensor(1, 1, &[0.5]));
    let variables = Context::new();
    let mut history = Context::new();
    let out = train(&g, s, &mut state, &variables, &mut history, 0.1, &Float).unwrap();
    assert_eq!(values(&out), vec![0.5]);
    let v = state.get(&"s".to_string()).unwrap().get(Vec2(0, 0));
    assert!((v - 0.51).abs() < 1e-12);
    assert_eq!(history.get(&"s".to_string()).unwrap().get(Vec2(0, 0)), 0.5);
}

#[test]
fn single_step_training_on_integers() {
    let mut g = Graph::new();
    let s = g.state("s".to_string(), Vec2(1, 1)).unwrap();
    let mut state: Context<i64> = Context::new();
    state.set("s".to_string(), Tensor::from_vec(Vec2(1, 1), vec![3i64]).unwrap());
    let variables: Context<i64> = Context::new();
    let mut history: Context<i64> = Context::new();
    train(&g, s, &mut state, &variables, &mut history, 2, &Exact).unwrap();
    assert_eq!(state.get(&"s".to_string()).unwrap().get(Vec2(0, 0)), 7);
}

#[test]
fn shared_child_receives_summed_gradient() {
    let mut g = Graph::new();
    let s = g.state("s".to_string(), Vec2(1, 1)).unwrap();
    let twice = g.add("twice".to_string(), s, s).unwrap();
    let mut state = Context::new();
    bind(&g, &mut state, s, tensor(1, 1, &[1.0]));
    let variables = Context::new();
    let mut history = Context::new();
    let out = train(&g, twice, &mut state, &variables, &mut history, 0.5, &Float).unwrap();
    assert_eq!(values(&out), vec![2.0]);
    // seed 0.5 reaches s along both edges: 1.0 + (0.5 + 0.5) * 0.5
    assert_eq!(state.get(&"s".to_string()).unwrap().get(Vec2(0, 0)), 1.5);
}

#[test]
fn training_moves_a_dot_weight() {
    let mut g = Graph::new();
    let x = g.variable("x".to_string(), Vec2(1, 2)).unwrap();
    let w = g.state("w".to_string(), Vec2(2, 1)).unwrap();
    let y = g.dot("y".to_string(), x, w).unwrap();
    let mut state = Context::new();
    bind(&g, &mut state, w, tensor(2, 1, &[1.0, 2.0]));
    let mut variables = Context::new();
    bind(&g, &mut variables, x, tensor(1, 2, &[3.0, 4.0]));
    let mut history = Context::new();
    let out = train(&g, y, &mut state, &variables, &mut history, 0.5, &Float).unwrap();
    assert_eq!(values(&out), vec![11.0]);
    // dy/dw = x transposed, seeded with 0.5 and scaled by 0.5
    assert_eq!(values(state.get(&"w".to_string()).unwrap()), vec![1.75, 3.0]);
    assert_eq!(values(history.get(&"y".to_string()).unwrap()), vec![11.0]);
}

#[test]
fn missing_binding_is_reported() {
    let mut g = Graph::new();
    let x = g.variable("x".to_string(), Vec2(1, 1)).unwrap();
    let state: Context<f64> = Context::new();
    let variables: Context<f64> = Context::new();
    match execute(&g, x, &state, &variables, &Float) {
        Err(TensorError::MissingBinding(id)) => assert_eq!(id, "x"),
        _ => panic!("an unbound variable must be reported"),
    }
}

#[test]
fn duplicate_id_is_refused() {
    let mut g = Graph::new();
    g.state("w".to_string(), Vec2(1, 1)).unwrap();
    assert!(matches!(g.variable("w".to_string(), Vec2(1, 1)), Err(TensorError::DuplicateId(_))));
    assert_eq!(g.len(), 1);
}

#[test]
fn context_round_trip() {
    let mut ctx: Context<f64> = Context::with_capacity(2);
    assert!(ctx.get(&"a".to_string()).is_none());
    ctx.set("a".to_string(), tensor(1, 2, &[1.0, 2.0]));
    ctx.set("b".to_string(), tensor(1, 1, &[3.0]));
    ctx.set("a".to_string(), tensor(1, 2, &[4.0, 5.0]));
    assert_eq!(values(ctx.get(&"a".to_string()).unwrap()), vec![4.0, 5.0]);
    assert_eq!(values(ctx.get(&"b".to_string()).unwrap()), vec![3.0]);
    assert!(ctx.get(&"unknown".to_string()).is_none());
}

#[test]
fn context_from_vec_checks_dimensions() {
    let mut g = Graph::new();
    let x = g.variable("x".to_string(), Vec2(0, 2)).unwrap();
    let w = g.state("w".to_string(), Vec2(2, 2)).unwrap();
    let ctx = Context::from_vec(&g, vec![(x, tensor(3, 2, &[0.0; 6])), (w, tensor(2, 2, &[1.0; 4]))]).unwrap();
    assert_eq!(ctx.get(&"x".to_string()).unwrap().dim().0, 3);
    assert_eq!(values(ctx.get(&"w".to_string()).unwrap()), vec![1.0; 4]);
    assert!(matches!(
        Context::from_vec(&g, vec![(w, tensor(3, 2, &[0.0; 6]))]),
        Err(TensorError::ShapeMismatch { .. })
    ));
}

#[test]
fn end_to_end_softmax_of_dot() {
    let mut g = Graph::new();
    let x = g.variable("x".to_string(), Vec2(1, 2)).unwrap();
    let w = g.state("w".to_string(), Vec2(2, 2)).unwrap();
    let d = g.dot("d".to_string(), x, w).unwrap();
    let y = g.softmax("y".to_string(), d).unwrap();
    let mut state = Context::new();
    bind(&g, &mut state, w, tensor(2, 2, &[1.0, 0.0, 0.0, 1.0]));
    let mut variables = Context::new();
    bind(&g, &mut variables, x, tensor(1, 2, &[1.0, 0.0]));
    let out = values(&execute(&g, y, &state, &variables, &Float).unwrap());
    assert!((out[0] - 0.731).abs() < 1e-3);
    assert!((out[1] - 0.269).abs() < 1e-3);
}

/// Values drawn from a normal distribution of deviation 2, clipped to [-1, 1].
fn gaussian(rows: usize, cols: usize) -> Tensor<f64> {
    let mut rng = rand::thread_rng();
    let normal = Normal::new(0.0, 2.0);
    let buf = (0..rows * cols).map(|_| normal.ind_sample(&mut rng).max(-1.0).min(1.0)).collect();
    Tensor::from_vec(Vec2(rows, cols), buf).unwrap()
}

#[test]
fn linear_regression() {
    let mut g = Graph::new();
    // Variables
    let input_x = g.variable("input_x".to_string(), Vec2(0, 2)).unwrap();
    let target_y = g.variable("target_y".to_string(), Vec2(0, 2)).unwrap();

    // Graph
    let mut states = Vec::new();
    let w = g.state(format!("weight_w_{}", 1), Vec2(2, 2)).unwrap();
    let b = g.state(format!("weight_b_{}", 1), Vec2(1, 2)).unwrap();
    let dot = g.dot(format!("layer_{}_dot", 1), input_x, w).unwrap();
    let add = g.add(format!("layer_{}_add", 1), dot, b).unwrap();
    let relu = g.relu(format!("layer_{}_relu", 1), add).unwrap();
    let softmax = g.softmax(format!("layer_{}_softmax", 1), relu).unwrap();
    let xentropy = g.softmax_cross_entropy(format!("layer_{}_xentropy", 1), softmax, target_y).unwrap();
    states.push(w);
    states.push(b);
    let w2 = g.state(format!("weight_w_{}", 2), Vec2(2, 2)).unwrap();
    let b2 = g.state(format!("weight_b_{}", 2), Vec2(1, 2)).unwrap();
    let dot2 = g.dot(format!("layer_{}_dot", 2), relu, w2).unwrap();
    let add2 = g.add(format!("layer_{}_add", 2), dot2, b2).unwrap();
    let relu2 = g.relu(format!("layer_{}_relu", 2), add2).unwrap();
    states.push(w2);
    states.push(b2);

    // initialize states
    let mut state_context = Context::with_capacity(4);
    for &s in states.iter() {
        let d = g.get_dim(s);
        bind(&g, &mut state_context, s, gaussian(d.0, d.1));
    }

    let mut variable_context = Context::with_capacity(2);
    bind(&g, &mut variable_context, input_x, tensor(4, 2, &[0.0, 0.0, 0.0, 1.0, 1.0, 0.0, 1.0, 1.0]));
    bind(&g, &mut variable_context, target_y, tensor(4, 2, &[0.0, 1.0, 1.0, 0.0, 1.0, 0.0, 0.0, 1.0]));

    let show = |label: &str, node: usize, state: &Context<f64>, variables: &Context<f64>| {
        println!("\n{}", label);
        let t = execute(&g, node, state, variables, &Float).unwrap();
        let d = t.dim();
        for i in 0..d.0 {
            let row: Vec<String> = (0..d.1).map(|j| format!("{}", t.get(Vec2(i, j)))).collect();
            println!("{}", row.join(" "));
        }
    };
    for (label, node) in [("input x", input_x), ("weight w 1", w), ("dot", dot), ("weight b 1", b), ("add", add), ("relu", relu), ("target y", target_y), ("xentropy", xentropy), ("relu 2", relu2)] {
        show(label, node, &state_context, &variable_context);
    }

    let mut history = Context::with_capacity(14);
    train(&g, xentropy, &mut state_context, &variable_context, &mut history, -0.001, &Float).unwrap();

    for (label, node) in [("input x", input_x), ("weight w 1", w), ("dot", dot), ("weight b 1", b), ("add", add), ("relu", relu), ("target y", target_y), ("xentropy", xentropy)] {
        show(label, node, &state_context, &variable_context);
    }
}

#[test]
fn sigmoid_node_value() {
    let mut g = Graph::new();
    let z = g.variable("z".to_string(), Vec2(1, 3)).unwrap();
    let s = g.sigmoid("s".to_string(), z).unwrap();
    let state = Context::new();
    let mut variables = Context::new();
    bind(&g, &mut variables, z, tensor(1, 3, &[0.0, 800.0, -800.0]));
    let out = values(&execute(&g, s, &state, &variables, &Float).unwrap());
    assert_eq!(out, vec![0.5, 1.0, 0.0]);
}

#[test]
fn forward_pass_records_every_vertex() {
    let mut g = Graph::new();
    let x = g.variable("x".to_string(), Vec2(1, 2)).unwrap();
    let w = g.state("w".to_string(), Vec2(2, 2)).unwrap();
    let d = g.dot("d".to_string(), x, w).unwrap();
    let r = g.relu("r".to_string(), d).unwrap();
    let mut state = Context::new();
    bind(&g, &mut state, w, tensor(2, 2, &[1.0, 2.0, 3.0, 4.0]));
    let mut variables = Context::new();
    bind(&g, &mut variables, x, tensor(1, 2, &[1.0, 1.0]));
    let mut history = Context::new();
    let out = g.forward_pass(r, &state, &variables, &mut history, &Float).unwrap();
    assert_eq!(values(&out), vec![relu(4.0), relu(6.0)]);
    assert_eq!(values(history.get(&"x".to_string()).unwrap()), vec![1.0, 1.0]);
    assert_eq!(values(history.get(&"w".to_string()).unwrap()), vec![1.0, 2.0, 3.0, 4.0]);
    assert_eq!(values(history.get(&"d".to_string()).unwrap()), vec![4.0, 6.0]);
    assert_eq!(values(history.get(&"r".to_string()).unwrap()), values(&out));
}

#[test]
fn runtime_shape_mismatch_is_reported() {
    let mut g = Graph::new();
    let x = g.variable("x".to_string(), Vec2(0, 2)).unwrap();
    let w = g.state("w".to_string(), Vec2(2, 2)).unwrap();
    let d = g.dot("d".to_string(), x, w).unwrap();
    let mut state = Context::new();
    bind(&g, &mut state, w, tensor(2, 2, &[1.0; 4]));
    let mut variables = Context::new();
    bind(&g, &mut variables, x, tensor(1, 3, &[1.0; 3]));
    assert!(matches!(execute(&g, d, &state, &variables, &Float), Err(TensorError::ShapeMismatch { .. })));
}

#[test]
fn state_update_starts_from_current_value() {
    let mut g = Graph::new();
    let s = g.state("s".to_string(), Vec2(1, 1)).unwrap();
    let mut state: Context<i64> = Context::new();
    state.set("s".to_string(), Tensor::from_vec(Vec2(1, 1), vec![5i64]).unwrap());
    let mut history: Context<i64> = Context::new();
    history.set("s".to_string(), Tensor::from_vec(Vec2(1, 1), vec![1i64]).unwrap());
    let seed = Tensor::from_vec(Vec2(1, 1), vec![1i64]).unwrap();
    g.backward_pass(s, &mut state, &history, &seed, 1, &Exact).unwrap();
    assert_eq!(state.get(&"s".to_string()).unwrap().get(Vec2(0, 0)), 6);
}

#[test]
fn backward_reports_missing_child() {
    let mut g = Graph::new();
    let a = g.state("a".to_string(), Vec2(1, 1)).unwrap();
    let b = g.state("b".to_string(), Vec2(1, 1)).unwrap();
    let sum = g.add("sum".to_string(), a, b).unwrap();
    let mut state = Context::new();
    bind(&g, &mut state, a, tensor(1, 1, &[1.0]));
    bind(&g, &mut state, b, tensor(1, 1, &[2.0]));
    let mut history = Context::new();
    bind(&g, &mut history, a, tensor(1, 1, &[1.0]));
    let seed = tensor(1, 1, &[1.0]);
    match g.backward_pass(sum, &mut state, &history, &seed, 0.5, &Float) {
        Err(TensorError::MissingBinding(id)) => assert_eq!(id, "b"),
        _ => panic!("a child missing from history must be reported"),
    }
    assert_eq!(values(state.get(&"a".to_string()).unwrap()), vec![1.0]);
}

#[test]
fn backward_on_a_variable_does_nothing() {
    let mut g = Graph::new();
    let x = g.variable("x".to_string(), Vec2(1, 1)).unwrap();
    let mut state: Context<f64> = Context::new();
    let history: Context<f64> = Context::new();
    let seed = tensor(1, 1, &[1.0]);
    g.backward_pass(x, &mut state, &history, &seed, 0.5, &Float).unwrap();
    assert!(state.get(&"x".to_string()).is_none());
}

#[test]
fn construction_errors_name_their_kind() {
    let mut g = Graph::new();
    let s = g.state("s".to_string(), Vec2(2, 3)).unwrap();
    let y = g.variable("y".to_string(), Vec2(3, 3)).unwrap();
    assert!(matches!(g.softmax_cross_entropy("c".to_string(), s, y), Err(TensorError::ShapeMismatch { .. })));
    assert!(matches!(g.add("s".to_string(), s, s), Err(TensorError::DuplicateId(_))));
    assert!(matches!(g.compute("z".to_string(), Op::Dot, vec![s]), Err(TensorError::WrongArity { needed: 2, given: 1 })));
}
