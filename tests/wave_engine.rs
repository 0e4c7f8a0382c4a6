use wave_engine::field::ActivationField;
use wave_engine::hash::hash_code;
use wave_engine::wave::derive_parameters;
use wave_engine::{WaveEngine, WaveParameters};

fn activation(p: WaveParameters, t: f64) -> f64 {
    let frequency = p.frequency_hundredths as f64 / 100.0;
    let amplitude = p.amplitude_hundredths as f64 / 100.0;
    let phase = p.phase_hundredths as f64 / 100.0;
    amplitude * (2.0 * std::f64::consts::PI * frequency * t + phase).sin()
}

#[test]
fn hash_of_mind_matches_fixture() {
    let mut acc: u32 = 0;
    for b in [109u8, 105, 110, 100] {
        acc = acc.wrapping_mul(31).wrapping_add(b as u32);
    }
    assert_eq!(hash_code("mind"), acc);
    assert_eq!(hash_code("mind"), 3351634);
    assert_eq!(WaveEngine::new().hash_code("mind"), 3351634);
}

#[test]
fn hash_is_repeatable() {
    let s = "thinking";
    assert_eq!(hash_code(s), hash_code(s));
    assert_eq!(hash_code(s), 1224578480);
    assert_eq!(hash_code("brain"), 93997814);
}

#[test]
fn hash_wraps_on_long_input() {
    let s = "aaaaaaaaaaaaaaaaaaaa";
    assert_eq!(hash_code(s), 1542361408);
    assert_eq!(hash_code(s), hash_code(&s.to_string()));
}

#[test]
fn hash_reads_bytes_not_chars() {
    // Seven two-byte characters: fourteen bytes are hashed.
    assert_eq!(hash_code("ÿÿÿÿÿÿÿ"), 2509256580);
}

#[test]
fn hash_of_empty_is_zero() {
    assert_eq!(hash_code(""), 0);
}

#[test]
fn empty_symbol_parameters() {
    let p = derive_parameters("");
    assert_eq!(
        p,
        WaveParameters { frequency_hundredths: 100, amplitude_hundredths: 50, phase_hundredths: 0 }
    );
    let t = 0.3;
    let expected = 0.5 * (2.0 * std::f64::consts::PI * 1.0 * t).sin();
    assert!((activation(p, t) - expected).abs() < 1e-12);
}

#[test]
fn parameters_of_known_symbols() {
    let e = WaveEngine::new();
    assert_eq!(
        e.derive_parameters("mind"),
        WaveParameters { frequency_hundredths: 134, amplitude_hundredths: 70, phase_hundredths: 626 }
    );
    assert_eq!(
        e.derive_parameters("thinking"),
        WaveParameters { frequency_hundredths: 180, amplitude_hundredths: 90, phase_hundredths: 460 }
    );
    assert_eq!(
        e.derive_parameters("brain"),
        WaveParameters { frequency_hundredths: 114, amplitude_hundredths: 75, phase_hundredths: 30 }
    );
    assert_eq!(
        e.derive_parameters("benchmark"),
        WaveParameters { frequency_hundredths: 173, amplitude_hundredths: 95, phase_hundredths: 525 }
    );
}

#[test]
fn amplitude_counts_bytes_modulo_ten() {
    let p = derive_parameters("aaaaaaaaaaaaaaaaaaaa");
    assert_eq!(p.amplitude_hundredths, 50);
    let q = derive_parameters("ÿÿÿÿÿÿÿ");
    assert_eq!(q.amplitude_hundredths, 70);
}

#[test]
fn parameters_stay_in_range() {
    for s in ["", "a", "mind", "thinking", "brain", "benchmark", "ÿÿÿÿÿÿÿ", "aaaaaaaaaaaaaaaaaaaa"] {
        let p = derive_parameters(s);
        assert!((100..=199).contains(&p.frequency_hundredths));
        assert!((50..=95).contains(&p.amplitude_hundredths));
        assert!(p.phase_hundredths <= 627);
    }
}

#[test]
fn evaluation_at_fixed_time_is_repeatable() {
    let a = activation(derive_parameters("mind"), 0.25);
    let b = activation(derive_parameters("mind"), 0.25);
    assert_eq!(a, b);
}

#[test]
fn no_symbols_give_empty_field() {
    let symbols: Vec<String> = Vec::new();
    let values: Vec<f64> = Vec::new();
    let field = ActivationField::from_activations(&symbols, &values);
    assert_eq!(field.len(), 0);
    assert!(field.into_entries().is_empty());
}

#[test]
fn duplicate_symbols_keep_last_write() {
    let symbols: Vec<String> =
        ["mind", "brain", "mind", "mind"].iter().map(|s| s.to_string()).collect();
    let values = [1i64, 2, 3, 4];
    let field = ActivationField::from_activations(&symbols, &values);
    assert_eq!(field.len(), 2);
    assert_eq!(field.get(&"mind".to_string()), Some(4));
    assert_eq!(field.get(&"brain".to_string()), Some(2));
    assert_eq!(field.get(&"thinking".to_string()), None);
}

#[test]
fn insert_replaces_and_adds() {
    let mut field = ActivationField::new();
    field.insert("a".to_string(), 1u8);
    field.insert("b".to_string(), 2u8);
    field.insert("a".to_string(), 3u8);
    assert_eq!(field.len(), 2);
    assert_eq!(field.get(&"a".to_string()), Some(3));
    let entries = field.into_entries();
    assert_eq!(entries, vec![("a".to_string(), 3u8), ("b".to_string(), 2u8)]);
}

#[test]
fn three_symbols_end_to_end() {
    let symbols: Vec<String> =
        ["thinking", "mind", "brain"].iter().map(|s| s.to_string()).collect();
    let e = WaveEngine::new();
    let times = [0.001, 0.002, 0.003];
    let values: Vec<f64> = symbols
        .iter()
        .zip(times)
        .map(|(s, t)| activation(e.derive_parameters(s), t))
        .collect();
    let field = ActivationField::from_activations(&symbols, &values);
    assert_eq!(field.len(), 3);
    for s in &symbols {
        let v = field.get(s).unwrap();
        let amp = e.derive_parameters(s).amplitude_hundredths as f64 / 100.0;
        assert!(-amp <= v && v <= amp);
    }
}
