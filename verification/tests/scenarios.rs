use image_learning::mlp::{evaluate_model, hot_index, next_phase, one_hot, Operation, Phase, MLP};
use image_learning::scoring::{all_finite, score_keys};

struct Perceptron {
    layout: MLP,
    weights: Vec<Vec<Vec<f32>>>,
    outputs: Vec<Vec<f32>>,
    deltas: Vec<Vec<f32>>,
    phase: Phase,
}

fn with_bias(values: &[f32]) -> Vec<f32> {
    std::iter::once(1.0).chain(values.iter().copied()).collect()
}

fn bits(values: &[f32]) -> Vec<u32> {
    values.iter().map(|v| v.to_bits()).collect()
}

impl Perceptron {
    fn new(widths: Vec<usize>, seed: u64) -> Perceptron {
        let layout = MLP::new(widths).unwrap();
        let mut state = seed;
        let mut draw = move || {
            state = (state * 1103515245 + 12345) % 2147483648;
            (state as f32 / 2147483648.0) * 2.0 - 1.0
        };
        let mut weights = Vec::new();
        let mut outputs = Vec::new();
        let mut deltas = Vec::new();
        for l in 0..layout.layers() {
            let (rows, columns) = layout.layer_shape(l);
            let mut layer = Vec::new();
            for r in 0..rows {
                let row: Vec<f32> = (0..columns).map(|_| if r == 0 { 0.0 } else { draw() }).collect();
                layer.push(row);
            }
            weights.push(layer);
            outputs.push(vec![0.0; columns]);
            deltas.push(vec![0.0; columns]);
        }
        Perceptron { layout, weights, outputs, deltas, phase: Phase::Ready }
    }

    fn shape(&self) -> Vec<Vec<usize>> {
        self.weights.iter().map(|layer| layer.iter().map(|row| row.len()).collect()).collect()
    }

    fn outputs_of(&self, input: &[f32]) -> Vec<Vec<f32>> {
        assert_eq!(self.layout.check_input(input.len()), Ok(()));
        let layers = self.layout.layers();
        let mut all = Vec::new();
        let mut activations = input.to_vec();
        for l in 0..layers {
            let fed = with_bias(&activations);
            let (_, columns) = self.layout.layer_shape(l);
            let sums: Vec<f32> = (0..columns)
                .map(|k| fed.iter().zip(self.weights[l].iter()).map(|(i, row)| i * row[k]).sum())
                .collect();
            activations = if l == layers - 1 {
                let total: f32 = sums.iter().map(|s| s.exp()).sum();
                sums.iter().map(|s| s.exp() / total).collect()
            } else {
                sums.iter().map(|s| 1.0 / (1.0 + (-s).exp())).collect()
            };
            all.push(activations.clone());
        }
        all
    }

    fn step(&mut self, input: &[f32], class: usize, learning_rate: f32) {
        let layers = self.layout.layers();
        let expected = one_hot(class, self.layout.output_width());

        self.phase = next_phase(self.phase, Operation::ForwardPropagate).unwrap();
        self.outputs = self.outputs_of(input);

        self.phase = next_phase(self.phase, Operation::BackwardPropagateError).unwrap();
        for l in (0..layers).rev() {
            let errors: Vec<f32> = if l == layers - 1 {
                expected.iter().zip(self.outputs[l].iter()).map(|(&e, &o)| if e { 1.0 - o } else { -o }).collect()
            } else {
                (0..self.outputs[l].len())
                    .map(|j| {
                        self.weights[l + 1][j + 1].iter().zip(self.deltas[l + 1].iter()).map(|(w, d)| w * d).sum()
                    })
                    .collect()
            };
            self.deltas[l] =
                errors.iter().zip(self.outputs[l].iter()).map(|(e, o)| e * o * (1.0 - o)).collect();
        }

        self.phase = next_phase(self.phase, Operation::UpdateWeights).unwrap();
        let mut fed_values = input.to_vec();
        for l in 0..layers {
            let fed = with_bias(&fed_values);
            for (j, row) in self.weights[l].iter_mut().enumerate() {
                for (k, weight) in row.iter_mut().enumerate() {
                    *weight += learning_rate * self.deltas[l][k] * fed[j];
                }
                assert!(all_finite(&bits(row)));
            }
            fed_values = self.outputs[l].clone();
        }
        assert_eq!(self.phase, Phase::Ready);
    }

    fn predict(&self, input: &[f32]) -> usize {
        let outputs = self.outputs_of(input);
        let last = &outputs[outputs.len() - 1];
        let total: f32 = last.iter().sum();
        assert!((total - 1.0).abs() <= 1e-5);
        assert!(last.iter().all(|&p| (0.0..=1.0).contains(&p)));
        self.layout.predict(&score_keys(&bits(last))).unwrap()
    }
}

#[test]
fn perceptron_learns_two_separable_points() {
    let data: Vec<(Vec<f32>, usize)> = vec![(vec![1.0, 0.0], 0), (vec![0.0, 1.0], 1)];
    let mut network = Perceptron::new(vec![2, 4, 2], 1);
    assert_eq!(network.layout.check_weights(&network.shape()), Ok(()));
    for _ in 0..1000 {
        for (input, class) in data.iter() {
            network.step(input, *class, 0.01);
        }
    }
    let predicted: Vec<usize> = data.iter().map(|(input, _)| network.predict(input)).collect();
    let expected: Vec<usize> = data
        .iter()
        .map(|(_, class)| hot_index(&one_hot(*class, network.layout.output_width())).unwrap())
        .collect();
    assert_eq!(expected, vec![0, 1]);
    let (correct, total) = evaluate_model(&predicted, &expected).unwrap();
    assert!(correct * 100 > total * 95);
    assert_eq!((correct, total), (2, 2));
}
