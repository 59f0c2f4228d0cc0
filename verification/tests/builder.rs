use mandelbrot::{ConfigurationError, Mandelbrot, MandelbrotBuilder, ShadingType};

const ONE: u64 = 0x3ff0_0000_0000_0000;

fn sample() -> MandelbrotBuilder {
    MandelbrotBuilder::new()
        .height(4)
        .width(5)
        .max_iterations(12)
        .shading_type(ShadingType::ColorOnly)
        .opacity(200)
        .zoom(ONE)
        .x_offset((-0.5f64).to_bits())
        .y_offset(0.25f64.to_bits())
}

fn refusal(builder: MandelbrotBuilder) -> Option<ConfigurationError> {
    builder.build().err()
}

#[test]
fn new_builder_is_all_zero() {
    let b = MandelbrotBuilder::new();
    assert_eq!(b.height, 0);
    assert_eq!(b.width, 0);
    assert_eq!(b.max_iterations, 0);
    assert_eq!(b.shading_type, ShadingType::OpacityAndColor);
    assert_eq!(b.opacity, 0);
    assert_eq!(b.zoom, 0);
    assert_eq!(b.x_offset, 0);
    assert_eq!(b.y_offset, 0);
    assert_eq!(f64::from_bits(b.zoom), 0.0);
}

#[test]
fn setters_set_their_own_field_only() {
    let b = MandelbrotBuilder::new().height(7);
    assert_eq!((b.height, b.width, b.max_iterations, b.opacity), (7, 0, 0, 0));
    let b = MandelbrotBuilder::new().width(9);
    assert_eq!((b.height, b.width, b.max_iterations, b.opacity), (0, 9, 0, 0));
    let b = MandelbrotBuilder::new().max_iterations(11);
    assert_eq!((b.height, b.width, b.max_iterations, b.opacity), (0, 0, 11, 0));
    let b = MandelbrotBuilder::new().opacity(13);
    assert_eq!((b.height, b.width, b.max_iterations, b.opacity), (0, 0, 0, 13));
    let b = MandelbrotBuilder::new().shading_type(ShadingType::OpacityOnly);
    assert_eq!(b.shading_type, ShadingType::OpacityOnly);
    assert_eq!((b.zoom, b.x_offset, b.y_offset), (0, 0, 0));
    let b = MandelbrotBuilder::new().zoom(3);
    assert_eq!((b.zoom, b.x_offset, b.y_offset), (3, 0, 0));
    let b = MandelbrotBuilder::new().x_offset(4);
    assert_eq!((b.zoom, b.x_offset, b.y_offset), (0, 4, 0));
    let b = MandelbrotBuilder::new().y_offset(5);
    assert_eq!((b.zoom, b.x_offset, b.y_offset), (0, 0, 5));
}

#[test]
fn later_setter_wins() {
    let b = MandelbrotBuilder::new().width(3).width(8).height(2).height(6);
    assert_eq!(b.width, 8);
    assert_eq!(b.height, 6);
}

#[test]
fn build_keeps_the_configuration() {
    let engine = sample().build().unwrap();
    assert_eq!(engine.height(), 4);
    assert_eq!(engine.width(), 5);
    assert_eq!(engine.max_iterations(), 12);
    assert_eq!(engine.shading_type(), ShadingType::ColorOnly);
    assert_eq!(engine.opacity(), 200);
    assert_eq!(engine.zoom(), ONE);
    assert_eq!(f64::from_bits(engine.zoom()), 1.0);
    assert_eq!(f64::from_bits(engine.x_offset()), -0.5);
    assert_eq!(f64::from_bits(engine.y_offset()), 0.25);
}

#[test]
fn new_engine_has_a_grid_of_zeros() {
    let engine = sample().build().unwrap();
    assert_eq!(engine.plot().len(), 5);
    for column in engine.plot() {
        assert_eq!(column, &vec![0u32; 4]);
    }
}

#[test]
fn init_with_props_is_what_build_does() {
    let engine = Mandelbrot::init_with_props(sample()).unwrap();
    assert_eq!(engine.width(), 5);
    assert_eq!(engine.height(), 4);
    assert_eq!(engine.plot(), &vec![vec![0u32; 4]; 5]);
    assert_eq!(
        Mandelbrot::init_with_props(sample().width(0)).err(),
        Some(ConfigurationError::ZeroWidth)
    );
}

#[test]
fn untouched_builder_is_refused() {
    assert_eq!(refusal(MandelbrotBuilder::new()), Some(ConfigurationError::ZeroWidth));
}

#[test]
fn zero_width_is_refused() {
    assert_eq!(refusal(sample().width(0)), Some(ConfigurationError::ZeroWidth));
}

#[test]
fn zero_height_is_refused() {
    assert_eq!(refusal(sample().height(0)), Some(ConfigurationError::ZeroHeight));
}

#[test]
fn zero_iteration_bound_is_refused() {
    assert_eq!(refusal(sample().max_iterations(0)), Some(ConfigurationError::ZeroMaxIterations));
}

#[test]
fn zoom_that_is_not_above_zero_is_refused() {
    let refused = [0.0f64, -0.0, -1.0, -1e-300, f64::NEG_INFINITY, f64::NAN];
    for zoom in refused {
        assert_eq!(
            refusal(sample().zoom(zoom.to_bits())),
            Some(ConfigurationError::NonPositiveZoom)
        );
    }
}

#[test]
fn zoom_above_zero_is_accepted() {
    let accepted = [1.0f64, 0.5, 1e-300, 5e-324, 1e300, f64::INFINITY];
    for zoom in accepted {
        let engine = sample().zoom(zoom.to_bits()).build().unwrap();
        assert_eq!(engine.zoom(), zoom.to_bits());
    }
}

#[test]
fn first_failing_field_names_the_refusal() {
    let b = sample();
    assert_eq!(refusal(b.width(0).height(0)), Some(ConfigurationError::ZeroWidth));
    assert_eq!(refusal(b.width(0).max_iterations(0).zoom(0)), Some(ConfigurationError::ZeroWidth));
    assert_eq!(refusal(b.height(0).max_iterations(0)), Some(ConfigurationError::ZeroHeight));
    assert_eq!(refusal(b.height(0).zoom(0)), Some(ConfigurationError::ZeroHeight));
    assert_eq!(refusal(b.max_iterations(0).zoom(0)), Some(ConfigurationError::ZeroMaxIterations));
}

#[test]
fn offsets_and_opacity_are_never_refused() {
    let engine = sample()
        .x_offset(f64::NAN.to_bits())
        .y_offset(f64::NEG_INFINITY.to_bits())
        .opacity(0)
        .build()
        .unwrap();
    assert_eq!(engine.opacity(), 0);
    assert!(f64::from_bits(engine.x_offset()).is_nan());
}

#[test]
fn smallest_valid_configuration_builds() {
    let engine =
        MandelbrotBuilder::new().width(1).height(1).max_iterations(1).zoom(1).build().unwrap();
    assert_eq!(engine.plot(), &vec![vec![0u32]]);
}
