use image_learning::codec::{decode_linear, encode_linear, LinearParameters};
use image_learning::error::ModelError;
use image_learning::numeral::is_numeral_text;
use image_learning::rbf_codec::{decode_rbf, encode_rbf, RbfParameters};
use image_learning::text::{bytes_eq, join_bytes, read_lines, split_bytes};

fn token(text: &str) -> Vec<u8> {
    text.as_bytes().to_vec()
}

fn tokens(texts: &[&str]) -> Vec<Vec<u8>> {
    texts.iter().map(|t| token(t)).collect()
}

#[test]
fn split_cuts_at_every_separator() {
    assert_eq!(split_bytes(b"a,bc,,d", b','), tokens(&["a", "bc", "", "d"]));
    assert_eq!(split_bytes(b"", b','), tokens(&[""]));
    assert_eq!(split_bytes(b",", b','), tokens(&["", ""]));
    assert_eq!(split_bytes(b"abc", b','), tokens(&["abc"]));
}

#[test]
fn join_puts_separators_between_pieces() {
    assert_eq!(join_bytes(&tokens(&["a", "bc", "", "d"]), b','), token("a,bc,,d"));
    assert_eq!(join_bytes(&tokens(&["abc"]), b','), token("abc"));
    assert_eq!(join_bytes(&Vec::new(), b','), token(""));
}

#[test]
fn split_undoes_join() {
    let pieces = tokens(&["0.5", "-1", "12.25", "inf"]);
    assert_eq!(split_bytes(&join_bytes(&pieces, b','), b','), pieces);
}

#[test]
fn lines_drop_the_piece_after_a_final_line_feed() {
    assert_eq!(read_lines(b"a\nb\n"), tokens(&["a", "b"]));
    assert_eq!(read_lines(b"a\nb"), tokens(&["a", "b"]));
    assert_eq!(read_lines(b"a\n\n"), tokens(&["a", ""]));
    assert_eq!(read_lines(b""), Vec::<Vec<u8>>::new());
}

#[test]
fn bytes_are_compared_by_content() {
    assert!(bytes_eq(b"abc", b"abc"));
    assert!(!bytes_eq(b"abc", b"abd"));
    assert!(!bytes_eq(b"abc", b"ab"));
    assert!(bytes_eq(b"", b""));
}

#[test]
fn numerals_are_told_from_other_text() {
    for good in ["0", "0.5", "-1", "+3", "12.25", ".5", "5.", "inf", "-inf", "NaN", "-NaN", "007"] {
        assert!(is_numeral_text(good.as_bytes()), "{}", good);
        assert!(good.parse::<f32>().is_ok(), "{}", good);
    }
    for bad in ["", ".", "-", "+", "1e5", "1.2.3", "abc", "0x10", " 1", "1 ", "1,2", "{1}", "nan", "Inf", "--1", "1-"] {
        assert!(!is_numeral_text(bad.as_bytes()), "{}", bad);
    }
}

#[test]
fn every_displayed_number_is_a_numeral() {
    for x in [0.0f32, -0.0, 1.0, -1.5, 0.001, 1e-10, 3.4e38, f32::MIN_POSITIVE, f32::INFINITY, f32::NEG_INFINITY, f32::NAN] {
        let text = x.to_string();
        assert!(is_numeral_text(text.as_bytes()), "{}", text);
        let back: f32 = text.parse().unwrap();
        assert!(back == x || (back.is_nan() && x.is_nan()));
    }
}

#[test]
fn linear_file_is_read() {
    let text = b"-- Efficiency --\n87.5\n-- Weights --\n{0.25}\n{-1}\n{3.5}\n";
    let p = decode_linear(text).unwrap();
    assert_eq!(p.metric, token("87.5"));
    assert_eq!(p.weights, tokens(&["0.25", "-1", "3.5"]));
}

#[test]
fn linear_file_is_written() {
    let p = LinearParameters { metric: token("50"), weights: tokens(&["0.5", "-0.125"]) };
    let text = encode_linear(&p);
    assert_eq!(text, b"-- Efficiency --\n50\n-- Weights --\n{0.5}\n{-0.125}\n".to_vec());
}

#[test]
fn linear_round_trip_keeps_parameters() {
    let p = LinearParameters { metric: token("66.5"), weights: tokens(&["0.5", "-0.125", "inf", "42"]) };
    let back = decode_linear(&encode_linear(&p)).unwrap();
    assert_eq!(back.metric, p.metric);
    assert_eq!(back.weights, p.weights);
}

#[test]
fn linear_round_trip_keeps_numbers() {
    let weights = [0.25f32, -0.75, 1.0e-7, 123456.79, -0.0];
    let p = LinearParameters {
        metric: token(&91.5f32.to_string()),
        weights: weights.iter().map(|w| token(&w.to_string())).collect(),
    };
    let back = decode_linear(&encode_linear(&p)).unwrap();
    let read: Vec<f32> = back.weights.iter().map(|t| std::str::from_utf8(t).unwrap().parse().unwrap()).collect();
    assert_eq!(read.len(), weights.len());
    for (a, b) in read.iter().zip(weights.iter()) {
        assert!((a - b).abs() <= 1e-6 * b.abs());
    }
    let metric: f32 = std::str::from_utf8(&back.metric).unwrap().parse().unwrap();
    assert_eq!(metric, 91.5);
}

#[test]
fn linear_file_without_weights_header_is_corrupt() {
    let text = b"-- Efficiency --\n87.5\n{0.25}\n{-1}\n";
    assert!(matches!(decode_linear(text), Err(ModelError::CorruptParameterFile)));
}

#[test]
fn linear_file_without_weights_is_corrupt() {
    let text = b"-- Efficiency --\n87.5\n-- Weights --\n";
    assert!(matches!(decode_linear(text), Err(ModelError::CorruptParameterFile)));
    assert!(matches!(decode_linear(b""), Err(ModelError::CorruptParameterFile)));
}

#[test]
fn linear_file_with_a_bad_value_is_corrupt() {
    for text in [
        &b"-- Efficiency --\n87.5\n-- Weights --\n{0.25}\n{abc}\n"[..],
        &b"-- Efficiency --\n87.5\n-- Weights --\n{0.25}\n0.5\n"[..],
        &b"-- Efficiency --\nhigh\n-- Weights --\n{0.25}\n"[..],
        &b"-- Efficiency --\n87.5\n-- Weights --\n{0.25}\n{}\n"[..],
        &b"-- efficiency --\n87.5\n-- Weights --\n{0.25}\n"[..],
        &b"-- Efficiency --\n87.5\n-- Weights --\n{0.25}\n\n"[..],
    ] {
        assert!(matches!(decode_linear(text), Err(ModelError::CorruptParameterFile)));
    }
}

#[test]
fn rbf_file_is_read() {
    let text = b"-- Efficiency --\n0.9\n-- Centers --\n0,1\n0.5,0.25\n-- Weights --\n{0.1}\n{-2}\n{3}\n";
    let p = decode_rbf(text).unwrap();
    assert_eq!(p.metric, token("0.9"));
    assert_eq!(p.centers, vec![tokens(&["0", "1"]), tokens(&["0.5", "0.25"])]);
    assert_eq!(p.weights, tokens(&["0.1", "-2", "3"]));
}

#[test]
fn rbf_file_is_written() {
    let p = RbfParameters {
        metric: token("0.9"),
        centers: vec![tokens(&["0", "1"]), tokens(&["0.5", "0.25"])],
        weights: tokens(&["0.1", "-2", "3"]),
    };
    assert_eq!(
        encode_rbf(&p),
        b"-- Efficiency --\n0.9\n-- Centers --\n0,1\n0.5,0.25\n-- Weights --\n{0.1}\n{-2}\n{3}\n".to_vec()
    );
}

#[test]
fn rbf_round_trip_keeps_parameters() {
    let p = RbfParameters {
        metric: token("75"),
        centers: vec![tokens(&["0", "1", "0.5"]), tokens(&["1", "1", "1"]), tokens(&["0.125", "0", "-0"])],
        weights: tokens(&["0", "0.5", "-0.5", "2"]),
    };
    let back = decode_rbf(&encode_rbf(&p)).unwrap();
    assert_eq!(back.metric, p.metric);
    assert_eq!(back.centers, p.centers);
    assert_eq!(back.weights, p.weights);
}

#[test]
fn rbf_file_without_centers_holds_the_bias_alone() {
    let text = b"-- Efficiency --\n0\n-- Centers --\n-- Weights --\n{0.5}\n";
    let p = decode_rbf(text).unwrap();
    assert!(p.centers.is_empty());
    assert_eq!(p.weights, tokens(&["0.5"]));
    assert_eq!(encode_rbf(&p), text.to_vec());
}

#[test]
fn rbf_file_without_weights_header_is_corrupt() {
    let text = b"-- Efficiency --\n0.9\n-- Centers --\n0,1\n0.5,0.25\n{0.1}\n{-2}\n{3}\n";
    assert!(matches!(decode_rbf(text), Err(ModelError::CorruptParameterFile)));
}

#[test]
fn rbf_file_with_a_bad_shape_is_corrupt() {
    for text in [
        &b"-- Efficiency --\n0.9\n-- Centers --\n0,1\n0.5\n-- Weights --\n{0.1}\n{-2}\n{3}\n"[..],
        &b"-- Efficiency --\n0.9\n-- Centers --\n0,1\n0.5,0.25\n-- Weights --\n{0.1}\n{-2}\n"[..],
        &b"-- Efficiency --\n0.9\n-- Centers --\n0,1\n0.5,x\n-- Weights --\n{0.1}\n{-2}\n{3}\n"[..],
        &b"-- Efficiency --\n0.9\n-- Centers --\n0,1\n0.5,0.25\n-- Weights --\n{0.1}\n-2\n{3}\n"[..],
        &b"-- Efficiency --\n0.9\n-- Weights --\n{0.1}\n"[..],
        &b"-- Centers --\n0,1\n-- Weights --\n{0.1}\n{2}\n"[..],
        &b"-- Efficiency --\n0.9\n-- Centers --\n0,1\n-- Weights --\n"[..],
    ] {
        assert!(matches!(decode_rbf(text), Err(ModelError::CorruptParameterFile)));
    }
}
