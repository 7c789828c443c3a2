//! Round-trip through the persisted form: a validated pattern is
//! serialized to the JSON record shape (unit-interval float channels,
//! four coordinate pairs per mapping), parsed back, and must validate
//! and generate exactly as the original.

use fractal_core::color::Color;
use fractal_core::generator::generate_fractal;
use fractal_core::pattern::Pattern;
use fractal_core::pattern::Pixel;
use fractal_core::pattern::create_base_pattern;
use fractal_core::pattern::validate_pattern;
use fractal_core::symmetry::Permutation;
use serde_json::Number;
use serde_json::Value;

const UNIT: i64 = 1_000_000;

fn channel_to_json(micro: i64) -> Value {
    Value::Number(Number::from_f64(micro as f64 / UNIT as f64).unwrap())
}

fn color_to_json(c: &Color) -> Value {
    let mut obj = serde_json::Map::new();
    obj.insert("r".to_string(), channel_to_json(c.r));
    obj.insert("g".to_string(), channel_to_json(c.g));
    obj.insert("b".to_string(), channel_to_json(c.b));
    obj.insert("a".to_string(), channel_to_json(c.a));
    Value::Object(obj)
}

fn perm_to_json(p: &Permutation) -> Value {
    let pairs: Vec<Value> = p
        .mapping
        .iter()
        .map(|&(y, x)| Value::Array(vec![Value::from(y as u64), Value::from(x as u64)]))
        .collect();
    let mut obj = serde_json::Map::new();
    obj.insert("mapping".to_string(), Value::Array(pairs));
    Value::Object(obj)
}

fn pattern_to_json(pattern: &Pattern) -> Value {
    let rows: Vec<Value> = (0..2)
        .map(|y| {
            let cells: Vec<Value> = (0..2)
                .map(|x| {
                    let pixel = &pattern.pixels[y][x];
                    let mut obj = serde_json::Map::new();
                    obj.insert("color".to_string(), color_to_json(&pixel.color));
                    obj.insert("perm".to_string(), perm_to_json(&pixel.perm));
                    Value::Object(obj)
                })
                .collect();
            Value::Array(cells)
        })
        .collect();
    let mut obj = serde_json::Map::new();
    obj.insert("pixels".to_string(), Value::Array(rows));
    Value::Object(obj)
}

fn channel_from_json(v: &Value) -> i64 {
    (v.as_f64().unwrap() * UNIT as f64).round() as i64
}

fn color_from_json(v: &Value) -> Color {
    Color::new(
        channel_from_json(&v["r"]),
        channel_from_json(&v["g"]),
        channel_from_json(&v["b"]),
        channel_from_json(&v["a"]),
    )
}

fn perm_from_json(v: &Value) -> Permutation {
    let pairs = v["mapping"].as_array().unwrap();
    assert_eq!(pairs.len(), 4);
    let mut mapping = [(0usize, 0usize); 4];
    for (i, pair) in pairs.iter().enumerate() {
        let coords = pair.as_array().unwrap();
        mapping[i] = (coords[0].as_u64().unwrap() as usize, coords[1].as_u64().unwrap() as usize);
    }
    Permutation { mapping }
}

fn pattern_from_json(v: &Value) -> Pattern {
    let rows = v["pixels"].as_array().unwrap();
    assert_eq!(rows.len(), 2);
    let mut pattern = create_base_pattern();
    for (y, row) in rows.iter().enumerate() {
        let cells = row.as_array().unwrap();
        assert_eq!(cells.len(), 2);
        for (x, cell) in cells.iter().enumerate() {
            pattern.pixels[y][x] = Pixel {
                color: color_from_json(&cell["color"]),
                perm: perm_from_json(&cell["perm"]),
            };
        }
    }
    pattern
}

#[test]
fn serialized_pattern_round_trips_and_generates_identically() {
    let original = create_base_pattern();
    assert!(validate_pattern(&original).is_ok());

    let text = serde_json::to_string(&pattern_to_json(&original)).unwrap();
    let parsed: Value = serde_json::from_str(&text).unwrap();
    let restored = pattern_from_json(&parsed);

    assert!(validate_pattern(&restored).is_ok());
    for y in 0..2 {
        for x in 0..2 {
            assert_eq!(restored.pixels[y][x].color, original.pixels[y][x].color);
            assert_eq!(restored.pixels[y][x].perm.mapping, original.pixels[y][x].perm.mapping);
        }
    }
    assert_eq!(generate_fractal(4, &restored, 500_000), generate_fractal(4, &original, 500_000));
}

#[test]
fn round_trip_preserves_awkward_channel_fractions() {
    // Channels whose unit-interval form is not exactly representable
    // in binary floating point still round-trip through the record.
    let mut original = create_base_pattern();
    original.pixels[0][0].color = Color::new(999_000, 333_333, 100_001, 1);
    assert!(validate_pattern(&original).is_ok());

    let text = serde_json::to_string(&pattern_to_json(&original)).unwrap();
    let parsed: Value = serde_json::from_str(&text).unwrap();
    let restored = pattern_from_json(&parsed);

    assert!(validate_pattern(&restored).is_ok());
    assert_eq!(restored.pixels[0][0].color, original.pixels[0][0].color);
    assert_eq!(generate_fractal(3, &restored, 750_000), generate_fractal(3, &original, 750_000));
}
