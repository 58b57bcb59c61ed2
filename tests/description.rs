use raytracer::description::{parse_decimal, parse_sphere_line, split_words, LineError};
use raytracer::{Color, Element, Material, Point, Sphere, Texture, surface_type};

#[test]
fn decimals_read_as_fixed_point() {
    assert_eq!(parse_decimal(b"1.5"), Some(1_500_000));
    assert_eq!(parse_decimal(b"-0.25"), Some(-250_000));
    assert_eq!(parse_decimal(b"+3"), Some(3_000_000));
    assert_eq!(parse_decimal(b"12.3456789"), Some(12_345_678));
    assert_eq!(parse_decimal(b"-.5"), Some(-500_000));
    assert_eq!(parse_decimal(b"5."), Some(5_000_000));
    assert_eq!(parse_decimal(b"10000000"), Some(10_000_000_000_000));
    assert_eq!(parse_decimal(b"007"), Some(7_000_000));
}

#[test]
fn malformed_decimals_are_rejected() {
    for w in [&b""[..], b".", b"-", b"+.", b"1e5", b"abc", b"1.2.3", b"10000001", b"--1", b"1-"] {
        assert_eq!(parse_decimal(w), None);
    }
}

#[test]
fn words_are_split_on_whitespace() {
    let ws = split_words(b"  sphere  1\t2 \r\n");
    assert_eq!(ws, vec![b"sphere".to_vec(), b"1".to_vec(), b"2".to_vec()]);
    assert!(split_words(b"   ").is_empty());
    assert!(split_words(b"").is_empty());
}

#[test]
fn sphere_lines_describe_spheres() {
    let r = parse_sphere_line(b"sphere 0 0 -5 1 51 204 51", 1_000_000, surface_type::Diffuse);
    let expected = Element::Sphere(Sphere {
        center: Point { x: 0, y: 0, z: -5_000_000 },
        radius: 1_000_000,
        material: Material {
            color: Texture::color(Color { red: 200_000, green: 800_000, blue: 200_000 }),
            albedo: 1_000_000,
            surface: surface_type::Diffuse,
        },
    });
    assert_eq!(format!("{:?}", r), format!("{:?}", Ok::<Option<Element>, LineError>(Some(expected))));
}

#[test]
fn other_lines_describe_nothing() {
    assert!(matches!(parse_sphere_line(b"plane 1 2 3", 1, surface_type::Diffuse), Ok(None)));
    assert!(matches!(parse_sphere_line(b"", 1, surface_type::Diffuse), Ok(None)));
    assert!(matches!(parse_sphere_line(b"spheres 1 2 3 4 5 6 7", 1, surface_type::Diffuse), Ok(None)));
}

#[test]
fn malformed_sphere_lines_are_errors() {
    assert!(matches!(
        parse_sphere_line(b"sphere 1 2 3", 1, surface_type::Diffuse),
        Err(LineError::MissingField)
    ));
    assert!(matches!(
        parse_sphere_line(b"sphere 1 x 3 4 5 6 y", 1, surface_type::Diffuse),
        Err(LineError::BadNumber { field: 2 })
    ));
}
