use image_learning::error::ModelError;
use image_learning::evaluation::{evaluate, evaluate_detailed, label_error, sign_label};
use image_learning::harness::{
    model_kind, non_target_categories, run_mode, stop_early, Mode, ModelKind, TrainingHarness,
};
use image_learning::linear::{check_features, load_model_weights, most_frequent, save_model_linear, set_var, Loaded};
use image_learning::mlp::{
    evaluate_model, first_max, hot_index, next_phase, one_hot, Operation, Phase, MLP,
};
use image_learning::naming::{
    category_index, category_of_model_name, is_image_extension, is_lowercase_image_extension,
    model_file_name, predict_category_for_image, same_text, ImageClass,
};
use image_learning::rbf::RBFN;
use image_learning::sampling::{draw_examples, seed_centers, shuffled_order, split_data};
use image_learning::schedule::{Action, Event, Run};
use image_learning::scoring::{all_finite, is_nonnegative, score_key, score_keys};

fn key(x: f32) -> i64 {
    score_key(x.to_bits())
}

fn names(texts: &[&str]) -> Vec<String> {
    texts.iter().map(|t| t.to_string()).collect()
}

#[test]
fn topology_needs_two_layers_without_gaps() {
    assert!(matches!(MLP::new(vec![]), Err(ModelError::InvalidTopology)));
    assert!(matches!(MLP::new(vec![4]), Err(ModelError::InvalidTopology)));
    assert!(matches!(MLP::new(vec![4, 0, 2]), Err(ModelError::InvalidTopology)));
    assert!(matches!(MLP::new(vec![0, 2]), Err(ModelError::InvalidTopology)));
    assert!(MLP::new(vec![2, 4, 2]).is_ok());
    assert!(MLP::new(vec![1, 1]).is_ok());
}

#[test]
fn layers_have_a_bias_row() {
    let mlp = MLP::new(vec![768, 75, 15, 3]).unwrap();
    assert_eq!(mlp.layers(), 3);
    assert_eq!(mlp.input_width(), 768);
    assert_eq!(mlp.output_width(), 3);
    assert_eq!(mlp.layer_shape(0), (769, 75));
    assert_eq!(mlp.layer_shape(1), (76, 15));
    assert_eq!(mlp.layer_shape(2), (16, 3));
}

#[test]
fn inputs_are_held_to_the_input_layer() {
    let mlp = MLP::new(vec![2, 4, 2]).unwrap();
    assert_eq!(mlp.check_input(2), Ok(()));
    assert_eq!(mlp.check_input(3), Err(ModelError::DimensionMismatch));
    assert_eq!(mlp.check_input(0), Err(ModelError::DimensionMismatch));
}

#[test]
fn weights_are_held_to_the_layout() {
    let mlp = MLP::new(vec![2, 4, 2]).unwrap();
    let good = vec![vec![4, 4, 4], vec![2, 2, 2, 2, 2]];
    assert_eq!(mlp.check_weights(&good), Ok(()));
    let short = vec![vec![4, 4, 4]];
    assert_eq!(mlp.check_weights(&short), Err(ModelError::DimensionMismatch));
    let no_bias = vec![vec![4, 4], vec![2, 2, 2, 2, 2]];
    assert_eq!(mlp.check_weights(&no_bias), Err(ModelError::DimensionMismatch));
    let ragged = vec![vec![4, 4, 4], vec![2, 2, 3, 2, 2]];
    assert_eq!(mlp.check_weights(&ragged), Err(ModelError::DimensionMismatch));
    let unchained = vec![vec![5, 5, 5], vec![2, 2, 2, 2, 2]];
    assert_eq!(mlp.check_weights(&unchained), Err(ModelError::DimensionMismatch));
}

#[test]
fn prediction_is_the_first_greatest_output() {
    let mlp = MLP::new(vec![2, 3]).unwrap();
    assert_eq!(mlp.predict(&vec![key(0.2), key(0.7), key(0.1)]), Ok(1));
    assert_eq!(mlp.predict(&vec![key(0.4), key(0.4), key(0.2)]), Ok(0));
    assert_eq!(mlp.predict(&vec![key(0.1), key(0.45), key(0.45)]), Ok(1));
    assert_eq!(mlp.predict(&vec![key(0.5), key(0.5)]), Err(ModelError::DimensionMismatch));
    assert_eq!(first_max(&vec![-5, -5, -7]), 0);
    assert_eq!(first_max(&vec![3]), 0);
    assert_eq!(first_max(&vec![1, 2, 3, 3]), 2);
}

#[test]
fn predicted_class_is_named() {
    let mlp = MLP::new(vec![2, 3]).unwrap();
    let categories = names(&["Aubergine", "Orange", "Tomato"]);
    assert_eq!(mlp.predict_image(1, &categories), Ok("Orange".to_string()));
    assert_eq!(mlp.predict_image(2, &categories), Ok("Tomato".to_string()));
    assert_eq!(mlp.predict_image(3, &categories), Err(ModelError::DimensionMismatch));
}

#[test]
fn labels_are_one_hot() {
    assert_eq!(one_hot(1, 3), vec![false, true, false]);
    assert_eq!(one_hot(0, 1), vec![true]);
    assert_eq!(one_hot(5, 2), vec![false, false]);
    assert_eq!(hot_index(&one_hot(2, 3)), Some(2));
    assert_eq!(hot_index(&vec![false, true, true]), Some(1));
    assert_eq!(hot_index(&vec![false, false]), None);
    assert_eq!(hot_index(&vec![]), None);
}

#[test]
fn perceptron_accuracy_is_counted() {
    assert_eq!(evaluate_model(&vec![0, 1, 2, 1], &vec![0, 1, 1, 1]), Ok((3, 4)));
    assert_eq!(evaluate_model(&vec![], &vec![]), Err(ModelError::EmptyDataset));
    assert_eq!(evaluate_model(&vec![1], &vec![]), Err(ModelError::EmptyDataset));
    assert_eq!(evaluate_model(&vec![1], &vec![1, 2]), Err(ModelError::DimensionMismatch));
}

#[test]
fn training_step_runs_in_order() {
    let a = next_phase(Phase::Ready, Operation::ForwardPropagate);
    assert_eq!(a, Some(Phase::Forwarded));
    let b = next_phase(Phase::Forwarded, Operation::BackwardPropagateError);
    assert_eq!(b, Some(Phase::Backpropagated));
    let c = next_phase(Phase::Backpropagated, Operation::UpdateWeights);
    assert_eq!(c, Some(Phase::Ready));
    assert_eq!(next_phase(Phase::Ready, Operation::BackwardPropagateError), None);
    assert_eq!(next_phase(Phase::Ready, Operation::UpdateWeights), None);
    assert_eq!(next_phase(Phase::Forwarded, Operation::ForwardPropagate), None);
    assert_eq!(next_phase(Phase::Forwarded, Operation::UpdateWeights), None);
    assert_eq!(next_phase(Phase::Backpropagated, Operation::ForwardPropagate), None);
    assert_eq!(next_phase(Phase::Backpropagated, Operation::BackwardPropagateError), None);
}

#[test]
fn score_keys_follow_the_scores() {
    let rising = [
        -3.4e38f32, -2.5, -1.0, -1e-10, 0.0, 1e-10, 0.5, 1.0, 2.5, 3.4e38, f32::INFINITY,
    ];
    for pair in rising.windows(2) {
        assert!(key(pair[0]) < key(pair[1]), "{} {}", pair[0], pair[1]);
    }
    assert_eq!(key(0.0), 0);
    assert_eq!(key(-0.0), 0);
    assert_eq!(key(f32::NAN), i64::MIN);
    assert_eq!(key(-f32::NAN), i64::MIN);
    assert_eq!(key(f32::NEG_INFINITY), i64::MIN);
    assert_eq!(key(1.0), 0x3f80_0000);
    assert_eq!(key(-1.0), -0x3f80_0000);
    assert_eq!(score_keys(&vec![1.0f32.to_bits(), (-1.0f32).to_bits()]), vec![0x3f80_0000, -0x3f80_0000]);
}

#[test]
fn zero_counts_as_positive() {
    assert!(is_nonnegative(0.0f32.to_bits()));
    assert!(is_nonnegative((-0.0f32).to_bits()));
    assert!(is_nonnegative(3.5f32.to_bits()));
    assert!(is_nonnegative(f32::INFINITY.to_bits()));
    assert!(!is_nonnegative((-1e-20f32).to_bits()));
    assert!(!is_nonnegative(f32::NEG_INFINITY.to_bits()));
    assert!(!is_nonnegative(f32::NAN.to_bits()));
    assert_eq!(sign_label(true), 1);
    assert_eq!(sign_label(false), -1);
    assert_eq!(sign_label(is_nonnegative(0.0f32.to_bits())), 1);
}

#[test]
fn label_error_is_the_difference() {
    assert_eq!(label_error(1, 1), 0);
    assert_eq!(label_error(1, -1), 2);
    assert_eq!(label_error(-1, 1), -2);
    assert_eq!(label_error(-1, -1), 0);
}

#[test]
fn outcomes_are_counted() {
    let predictions = vec![1, 1, -1, -1, 1, -1];
    let labels = vec![1, -1, -1, 1, 1, 1];
    let tally = evaluate_detailed(&predictions, &labels).unwrap();
    assert_eq!(tally.correct, 3);
    assert_eq!(tally.false_positives, 1);
    assert_eq!(tally.false_negatives, 2);
    assert_eq!(tally.total, 6);
    assert_eq!(evaluate(&predictions, &labels), Ok((3, 6)));
}

#[test]
fn evaluation_without_labels_is_an_empty_dataset() {
    assert_eq!(evaluate_detailed(&vec![], &vec![]), Err(ModelError::EmptyDataset));
    assert_eq!(evaluate(&vec![], &vec![]), Err(ModelError::EmptyDataset));
    assert_eq!(evaluate(&vec![1], &vec![]), Err(ModelError::EmptyDataset));
    assert_eq!(evaluate(&vec![1], &vec![1, 1]), Err(ModelError::DimensionMismatch));
    let rbfn = RBFN::new(2, 2);
    assert_eq!(rbfn.evaluate(&vec![], &vec![]), Err(ModelError::EmptyDataset));
    assert_eq!(rbfn.evaluate_detailed(&vec![], &vec![]), Err(ModelError::EmptyDataset));
    assert_eq!(rbfn.evaluate(&vec![1, -1], &vec![1, 1]), Ok((1, 2)));
    assert_eq!(rbfn.evaluate_detailed(&vec![1, -1], &vec![-1, 1]).unwrap().false_positives, 1);
}

#[test]
fn image_extensions_are_known_in_any_case() {
    for known in ["jpg", "JPG", "Jpeg", "png", "BMP", "gif", "TIFF", "heic", "MOV", "mov"] {
        assert!(is_image_extension(known), "{}", known);
    }
    for unknown in ["", "txt", "jpgx", "jp", "webp", "mp4", ".jpg", "jpg "] {
        assert!(!is_image_extension(unknown), "{}", unknown);
    }
    assert!(is_lowercase_image_extension("png"));
    assert!(!is_lowercase_image_extension("PNG"));
}

#[test]
fn texts_are_compared_by_content() {
    assert!(same_text("Tomato", "Tomato"));
    assert!(!same_text("Tomato", "tomato"));
    assert!(!same_text("Tomato", "Tomat"));
    assert!(same_text("", ""));
    assert!(same_text("Cat\u{e9}gorie", "Cat\u{e9}gorie"));
}

#[test]
fn model_files_are_named_after_their_category() {
    assert_eq!(category_of_model_name("rbfn_model_weights_Tomato.txt"), Some("Tomato".to_string()));
    assert_eq!(category_of_model_name("rbfn_model_weights_.txt"), Some(String::new()));
    assert_eq!(category_of_model_name("rbfn_model_weights_P\u{ea}che.txt"), Some("P\u{ea}che".to_string()));
    assert_eq!(category_of_model_name("rbfn_model_weights_Tomato.json"), None);
    assert_eq!(category_of_model_name("linear_model_weights_0.txt"), None);
    assert_eq!(category_of_model_name("rbfn_model_weights_txt"), None);
    assert_eq!(category_of_model_name(""), None);
}

fn scored(models: &[&str], scores: &[f32]) -> Vec<(String, i64)> {
    models.iter().zip(scores.iter()).map(|(m, &s)| (m.to_string(), key(s))).collect()
}

#[test]
fn the_highest_scoring_model_gives_the_category() {
    let models = [
        "rbfn_model_weights_Tomato.txt",
        "rbfn_model_weights_Aubergine.txt",
        "rbfn_model_weights_Orange.txt",
    ];
    assert_eq!(predict_category_for_image(&scored(&models, &[-0.2, 0.1, 0.9])), "Orange");
    assert_eq!(predict_category_for_image(&scored(&models, &[0.9, 0.9, 0.1])), "Tomato");
    assert_eq!(predict_category_for_image(&scored(&models, &[-5.0, -0.5, -0.5])), "Aubergine");
}

#[test]
fn no_model_in_the_running_gives_no_category() {
    assert_eq!(predict_category_for_image(&Vec::new()), "Inconnu");
    let models = ["rbfn_model_weights_Tomato.txt", "other.txt"];
    assert_eq!(predict_category_for_image(&scored(&models, &[f32::NAN, 5.0])), "Inconnu");
    assert_eq!(predict_category_for_image(&scored(&models, &[f32::NEG_INFINITY, 5.0])), "Inconnu");
    assert_eq!(predict_category_for_image(&scored(&models, &[-1.0, 5.0])), "Tomato");
}

#[test]
fn model_files_carry_the_category_in_their_name() {
    assert_eq!(model_file_name("Tomato"), "rbfn_model_weights_Tomato.txt");
    assert_eq!(model_file_name(""), "rbfn_model_weights_.txt");
    for category in ["Tomato", "Orange", "Aubergine", "P\u{ea}che", ".txt"] {
        assert_eq!(category_of_model_name(&model_file_name(category)), Some(category.to_string()));
    }
}

#[test]
fn a_model_is_trained_against_the_other_categories() {
    let categories = names(&["Tomato", "Orange", "Aubergine"]);
    assert_eq!(non_target_categories(&categories, &"Orange".to_string()), names(&["Tomato", "Aubergine"]));
    assert_eq!(non_target_categories(&categories, &"Tomato".to_string()), names(&["Orange", "Aubergine"]));
    assert_eq!(non_target_categories(&categories, &"Banana".to_string()), categories);
    assert_eq!(non_target_categories(&names(&["a", "a"]), &"a".to_string()), names(&[]));
}

#[test]
fn finite_numbers_are_told_from_the_others() {
    let bits = |values: &[f32]| -> Vec<u32> { values.iter().map(|v| v.to_bits()).collect() };
    assert!(all_finite(&bits(&[0.0, -0.0, 1.5, -3.4e38, 1e-40])));
    assert!(all_finite(&bits(&[])));
    assert!(!all_finite(&bits(&[0.0, f32::INFINITY])));
    assert!(!all_finite(&bits(&[f32::NEG_INFINITY, 1.0])));
    assert!(!all_finite(&bits(&[1.0, f32::NAN, 2.0])));
}

#[test]
fn categories_have_their_places() {
    assert_eq!(category_index("Tomato"), 0);
    assert_eq!(category_index("Orange"), 1);
    assert_eq!(category_index("Aubergine"), 2);
    assert_eq!(category_index("Inconnu"), 0);
}

#[test]
fn classes_have_their_places() {
    assert_eq!(ImageClass::from_index(0), ImageClass::Avocado);
    assert_eq!(ImageClass::from_index(1), ImageClass::Tomato);
    assert_eq!(ImageClass::from_index(2), ImageClass::Banana);
    assert_eq!(ImageClass::from_index(7), ImageClass::Avocado);
    for class in [ImageClass::Avocado, ImageClass::Tomato, ImageClass::Banana] {
        assert_eq!(ImageClass::from_index(class.index()), class);
    }
    assert_eq!(ImageClass::from_directory("Tomato"), ImageClass::Tomato);
    assert_eq!(ImageClass::from_directory("Banana"), ImageClass::Banana);
    assert_eq!(ImageClass::from_directory("Avocado"), ImageClass::Avocado);
    assert_eq!(ImageClass::from_directory("Unknown"), ImageClass::Avocado);
}

#[test]
fn shuffled_order_is_a_permutation() {
    for n in [0usize, 1, 2, 17, 100] {
        let mut order = shuffled_order(n);
        assert_eq!(order.len(), n);
        order.sort();
        assert_eq!(order, (0..n).collect::<Vec<usize>>());
    }
}

#[test]
fn shuffled_order_is_not_always_the_rising_one() {
    let rising: Vec<usize> = (0..50).collect();
    let mut moved = false;
    for _ in 0..8 {
        if shuffled_order(50) != rising {
            moved = true;
        }
    }
    assert!(moved);
}

#[test]
fn centers_are_seeded_from_different_examples() {
    for (samples, centers) in [(10usize, 10usize), (20, 5), (3, 0), (1, 1)] {
        let mut chosen = seed_centers(samples, centers);
        assert_eq!(chosen.len(), centers);
        assert!(chosen.iter().all(|&k| k < samples));
        chosen.sort();
        chosen.dedup();
        assert_eq!(chosen.len(), centers);
    }
    let rbfn = RBFN::new(4, 2);
    let mut chosen = rbfn.seed_centers(9);
    assert_eq!(chosen.len(), 4);
    chosen.sort();
    chosen.dedup();
    assert_eq!(chosen.len(), 4);
    assert!(chosen.iter().all(|&k| k < 9));
}

#[test]
fn examples_are_drawn_from_the_training_set() {
    let picks = draw_examples(7, 500);
    assert_eq!(picks.len(), 500);
    assert!(picks.iter().all(|&k| k < 7));
    for k in 0..7 {
        assert!(picks.contains(&k));
    }
    assert!(draw_examples(3, 0).is_empty());
    assert!(draw_examples(0, 0).is_empty());
    assert!(draw_examples(1, 5).iter().all(|&k| k == 0));
}

#[test]
fn data_is_split_without_loss() {
    let (train, validation) = split_data(10, 8);
    assert_eq!(train.len(), 8);
    assert_eq!(validation.len(), 2);
    let mut all: Vec<usize> = train.iter().chain(validation.iter()).copied().collect();
    all.sort();
    assert_eq!(all, (0..10).collect::<Vec<usize>>());
    let (train, validation) = split_data(4, 4);
    assert_eq!((train.len(), validation.len()), (4, 0));
    let (train, validation) = split_data(0, 0);
    assert!(train.is_empty() && validation.is_empty());
}

#[test]
fn models_and_modes_are_named() {
    assert_eq!(model_kind("linear_model"), Some(ModelKind::LinearClassifier));
    assert_eq!(model_kind("rbf_model"), Some(ModelKind::RBFNetwork));
    assert_eq!(model_kind("mlp_model"), Some(ModelKind::MultilayerPerceptron));
    assert_eq!(model_kind("svm"), None);
    assert_eq!(run_mode("train"), Some(Mode::Train));
    assert_eq!(run_mode("predict"), Some(Mode::Predict));
    assert_eq!(run_mode("Train"), None);
}

#[test]
fn parameters_are_saved_on_improvement_only() {
    let mut harness = TrainingHarness::new(key(50.0));
    assert_eq!(harness.best(), key(50.0));
    assert!(!harness.record(key(40.0)));
    assert!(!harness.record(key(50.0)));
    assert!(harness.record(key(62.5)));
    assert_eq!(harness.best(), key(62.5));
    assert!(!harness.record(key(62.5)));
    assert!(!harness.record(key(f32::NAN)));
    assert!(harness.record(key(70.0)));
    assert_eq!(harness.best(), key(70.0));
    assert_eq!(harness.epochs(), 6);
}

#[test]
fn training_stops_when_the_cost_rises_or_stalls() {
    assert!(stop_early(key(0.5), key(0.6), false));
    assert!(stop_early(key(0.5), key(0.499999), true));
    assert!(stop_early(key(0.5), key(0.5), true));
    assert!(!stop_early(key(0.5), key(0.4), false));
    assert!(!stop_early(key(0.5), key(0.5), false));
}

#[test]
fn sizes_follow_the_first_example() {
    let x = vec![vec![0.5f32, 0.25, 1.0], vec![0.0, 0.0, 0.0]];
    assert_eq!(set_var(&x), (2, 3, 4));
    let none: Vec<Vec<f32>> = Vec::new();
    assert_eq!(set_var(&none), (0, 0, 1));
}

#[test]
fn features_are_held_to_the_weights() {
    let x = vec![vec![0.5f32, 0.25], vec![0.0, 0.0]];
    assert_eq!(check_features(&x, 3), Ok(()));
    assert_eq!(check_features(&x, 2), Err(ModelError::DimensionMismatch));
    assert_eq!(check_features(&x, 0), Err(ModelError::DimensionMismatch));
    let ragged = vec![vec![0.5f32, 0.25], vec![0.0]];
    assert_eq!(check_features(&ragged, 3), Err(ModelError::DimensionMismatch));
    let none: Vec<Vec<f32>> = Vec::new();
    assert_eq!(check_features(&none, 1), Ok(()));
}

#[test]
fn missing_file_falls_back_where_allowed() {
    assert!(matches!(load_model_weights(None, true), Ok(Loaded::Fresh)));
    assert!(matches!(load_model_weights(None, false), Err(ModelError::MissingParameterFile)));
    let text = b"-- Efficiency --\n87.5\n-- Weights --\n{0.25}\n{-1}\n";
    match load_model_weights(Some(&text[..]), true) {
        Ok(Loaded::Stored(p)) => {
            assert_eq!(p.metric, b"87.5".to_vec());
            assert_eq!(p.weights.len(), 2);
            assert_eq!(save_model_linear(&p), text.to_vec());
        }
        _ => panic!("the file holds a model"),
    }
    assert!(matches!(
        load_model_weights(Some(&b"-- Efficiency --\n87.5\n"[..]), true),
        Err(ModelError::CorruptParameterFile)
    ));
}

#[test]
fn the_most_frequent_answer_wins() {
    assert_eq!(most_frequent(&names(&["Tomato", "Orange", "Tomato"])), Some("Tomato".to_string()));
    assert_eq!(most_frequent(&names(&["Orange"])), Some("Orange".to_string()));
    assert_eq!(most_frequent(&names(&["a", "b", "b", "a", "b"])), Some("b".to_string()));
    assert_eq!(most_frequent(&names(&[])), None);
    let tie = most_frequent(&names(&["x", "y"])).unwrap();
    assert!(tie == "x" || tie == "y");
}

#[test]
fn network_file_gives_its_layout() {
    let text = b"-- Efficiency --\n0.9\n-- Centers --\n0,1,0\n0.5,0.25,1\n-- Weights --\n{0.1}\n{-2}\n{3}\n";
    let (layout, p) = RBFN::load_model(text).unwrap();
    assert_eq!(layout.num_centers(), 2);
    assert_eq!(layout.input_dimension(), 3);
    assert_eq!(layout.weight_count(), 3);
    assert_eq!(layout.check_input(3), Ok(()));
    assert_eq!(layout.check_input(2), Err(ModelError::DimensionMismatch));
    assert_eq!(RBFN::save_model(&p), text.to_vec());
    assert!(matches!(RBFN::load_model(b"-- Centers --\n"), Err(ModelError::CorruptParameterFile)));
}

#[test]
fn linear_classifier_learns_two_separable_classes() {
    let mut x: Vec<Vec<f32>> = Vec::new();
    let mut y: Vec<i32> = Vec::new();
    for _ in 0..10 {
        x.push(vec![1.0, 0.0]);
        y.push(1);
    }
    for _ in 0..10 {
        x.push(vec![0.0, 1.0]);
        y.push(-1);
    }
    let (rows, _, weights) = set_var(&x);
    assert_eq!(check_features(&x, weights), Ok(()));
    let mut w = vec![0.0f32; weights];
    let score = |w: &Vec<f32>, features: &Vec<f32>| -> f32 {
        let mut total = w[0];
        for i in 0..features.len() {
            total += w[i + 1] * features[i];
        }
        total
    };
    for k in draw_examples(rows, 1000) {
        let predicted = sign_label(is_nonnegative(score(&w, &x[k]).to_bits()));
        let diff = label_error(y[k], predicted) as f32;
        w[0] += 0.001 * diff;
        for j in 0..x[k].len() {
            w[j + 1] += 0.001 * diff * x[k][j];
        }
    }
    assert_eq!(sign_label(is_nonnegative(score(&w, &vec![1.0, 0.0]).to_bits())), 1);
    assert_eq!(sign_label(is_nonnegative(score(&w, &vec![0.0, 1.0]).to_bits())), -1);
    let predictions: Vec<i32> =
        x.iter().map(|f| sign_label(is_nonnegative(score(&w, f).to_bits()))).collect();
    assert_eq!(evaluate(&predictions, &y), Ok((20, 20)));
}

#[test]
fn decision_does_not_change_with_the_scale_of_the_weights() {
    let w = [0.3f32, -0.7, 0.2];
    let inputs = [[1.0f32, 0.0], [0.0, 1.0], [0.5, 0.5], [0.25, 1.0]];
    for scale in [0.5f32, 2.0, 10.0, 1000.0] {
        for x in inputs.iter() {
            let plain = w[0] + w[1] * x[0] + w[2] * x[1];
            let scaled = scale * w[0] + scale * w[1] * x[0] + scale * w[2] * x[1];
            assert_eq!(
                sign_label(is_nonnegative(plain.to_bits())),
                sign_label(is_nonnegative(scaled.to_bits()))
            );
        }
    }
}

#[test]
fn a_run_works_through_its_categories_in_rounds() {
    let mut run = Run::new(2, vec![10, 10]);
    let mut asked = Vec::new();
    let mut events = 0;
    loop {
        let action = run.action();
        asked.push(action);
        let event = match action {
            Action::Stop => break,
            Action::Evaluate(category) => Event::Evaluated(if category == 0 { 20 } else { 5 }),
            _ => Event::Done,
        };
        run.advance(event);
        events += 1;
        assert!(events <= 16);
    }
    assert_eq!(
        asked,
        vec![
            Action::Load(0),
            Action::Train(0),
            Action::Evaluate(0),
            Action::Save(0),
            Action::Load(1),
            Action::Train(1),
            Action::Evaluate(1),
            Action::Load(0),
            Action::Train(0),
            Action::Evaluate(0),
            Action::Load(1),
            Action::Train(1),
            Action::Evaluate(1),
            Action::Stop,
        ]
    );
    assert_eq!(run.watermark(0), 20);
    assert_eq!(run.watermark(1), 10);
}

#[test]
fn a_failed_category_is_given_up() {
    let mut run = Run::new(2, vec![0, 0, 0]);
    assert_eq!(run.action(), Action::Load(0));
    run.advance(Event::Done);
    run.advance(Event::Failed);
    assert!(run.is_aborted(0));
    assert_eq!(run.action(), Action::Load(1));
    run.advance(Event::Failed);
    assert_eq!(run.action(), Action::Load(2));
    run.advance(Event::Done);
    run.advance(Event::Done);
    assert_eq!(run.action(), Action::Evaluate(2));
    run.advance(Event::Done);
    assert_eq!(run.action(), Action::Evaluate(2));
    run.advance(Event::Evaluated(0));
    assert_eq!(run.action(), Action::Load(2));
    run.advance(Event::Done);
    run.advance(Event::Done);
    run.advance(Event::Evaluated(1));
    assert_eq!(run.action(), Action::Save(2));
    run.advance(Event::Evaluated(9));
    assert_eq!(run.action(), Action::Save(2));
    run.advance(Event::Done);
    assert_eq!(run.action(), Action::Stop);
    run.advance(Event::Done);
    assert_eq!(run.action(), Action::Stop);
    assert_eq!(run.watermark(2), 1);
    assert!(run.is_aborted(1));
    assert!(!run.is_aborted(2));
}

#[test]
fn a_run_without_work_is_over_at_once() {
    assert_eq!(Run::new(0, vec![1, 2]).action(), Action::Stop);
    assert_eq!(Run::new(3, vec![]).action(), Action::Stop);
    let mut run = Run::new(1, vec![7]);
    run.advance(Event::Failed);
    assert_eq!(run.action(), Action::Stop);
}
