use miniquant::pipeline::converter::{weight_mode, QuantizationConfig, QuantizationMethod};
use miniquant::pipeline::observer::{ModelObserver, TensorObserver};
use miniquant::quant::modes::QuantizationMode;

fn bits(values: &[f32]) -> Vec<u32> {
    values.iter().map(|v| v.to_bits()).collect()
}

fn val(b: u32) -> f32 {
    f32::from_bits(b)
}

#[test]
fn test_tensor_observer() {
    let mut obs = TensorObserver::new("test");

    obs.observe(&bits(&[1.0, 2.0]));
    obs.observe(&bits(&[3.0, 4.0]));

    assert_eq!(val(obs.min()), 1.0);
    assert_eq!(val(obs.max()), 4.0);
    assert_eq!(obs.num_samples(), 2);
}

#[test]
fn tensor_observer_fresh() {
    let obs = TensorObserver::new("layer");
    assert_eq!(obs.name(), "layer");
    assert_eq!(val(obs.min()), f32::INFINITY);
    assert_eq!(val(obs.max()), f32::NEG_INFINITY);
    assert_eq!(obs.num_samples(), 0);
}

#[test]
fn test_model_observer() {
    let mut model_obs = ModelObserver::new();

    model_obs.register("layer1");
    model_obs.register("layer2");

    model_obs.observe("layer1", &bits(&[1.0, 2.0]));
    model_obs.observe("layer2", &bits(&[3.0, 4.0]));

    let scales = model_obs.observers();

    assert_eq!(scales.len(), 2);
    assert!(scales.iter().any(|o| o.name() == "layer1"));
    assert!(scales.iter().any(|o| o.name() == "layer2"));
}

#[test]
fn model_observer_routes_by_name() {
    let mut m = ModelObserver::new();
    m.register("a");
    m.register("b");
    m.observe("a", &bits(&[-5.0, 1.0]));
    m.observe("a", &bits(&[2.0]));
    m.observe("missing", &bits(&[100.0]));
    let a = m.get("a").unwrap();
    assert_eq!(val(a.min()), -5.0);
    assert_eq!(val(a.max()), 2.0);
    assert_eq!(a.num_samples(), 2);
    let b = m.get("b").unwrap();
    assert_eq!(b.num_samples(), 0);
    assert!(m.get("missing").is_none());
    assert_eq!(m.observers().len(), 2);
}

#[test]
fn model_observer_register_resets() {
    let mut m = ModelObserver::new();
    m.register("a");
    m.observe("a", &bits(&[7.0]));
    m.register("a");
    assert_eq!(m.observers().len(), 1);
    let a = m.get("a").unwrap();
    assert_eq!(a.num_samples(), 0);
    assert_eq!(val(a.min()), f32::INFINITY);
}

#[test]
fn test_quantization_config() {
    let config = QuantizationConfig::default();

    match config.mode {
        QuantizationMethod::Asymmetric => {}
        _ => panic!("Default should be asymmetric"),
    }
    assert!(config.percentiles.is_none());
}

#[test]
fn weight_modes_per_method() {
    assert_eq!(weight_mode(QuantizationMethod::Symmetric), QuantizationMode::Symmetric);
    assert_eq!(weight_mode(QuantizationMethod::Asymmetric), QuantizationMode::Asymmetric);
    assert_eq!(weight_mode(QuantizationMethod::Dynamic), QuantizationMode::Asymmetric);
}

#[test]
fn model_observer_default_is_empty() {
    let m = ModelObserver::default();
    assert!(m.observers().is_empty());
}
