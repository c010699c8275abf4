use craytracer::geometry::CameraType;
use craytracer::scene_parser::parser::{RawValue, RawValueArray, RawValueMap, TypedRawValueMap};
use craytracer::scene_parser::scene_parser::{
    check_lights, parse_scene, parse_scene_reporting_unused, show, CameraDesc, LightDesc, MaterialDesc, PrimitiveDesc, SceneDesc,
    ShapeDesc, TextureDesc,
};
use craytracer::scene_parser::tokenizer::ParserError;
use craytracer::scene_parser::Location;

fn s(x: &str) -> String {
    x.to_string()
}

fn t3(a: &str, b: &str, c: &str) -> (String, String, String) {
    (s(a), s(b), s(c))
}

fn loc(line: usize, column: usize) -> Location {
    Location { line, column }
}

const SCENE: &str = "
{
    max_depth: 3,
    num_samples: 1,
    camera: Perspective {
        origin: Point(0, 0, 0),
        target: Point(0, 0, 1),
        up: Vector(0, 1, 0),
        fov: 60,
        lens_radius: 1,
        focal_distance: 100,
        film: {
            width: 400,
            height: 300
        },    
    },
    lights: [
        Point {
            origin: Point(0, 0, 0),
            intensity: Color(1, 1, 1)
        }
    ],
    materials: {
        ball: Matte {
            reflectance: Color(1, 1, 1),
            sigma: 0
        },
    },
    shapes: {
        ball: Sphere {
            origin: Point(0, 0, 2),
            radius: 1
        },
    },
    primitives: [
       Shape { shape: 'ball', material: 'ball' },
       Mesh { file_name: 'objs/triangle.obj', fallback_material: 'ball' },
    ]
}
";

fn parse_ok(input: &str) -> SceneDesc {
    match parse_scene(input) {
        Ok(scene) => scene,
        Err(e) => panic!("unexpected error {:?}", e),
    }
}

fn parse_err(input: &str) -> ParserError {
    match parse_scene(input) {
        Ok(_) => panic!("expected an error"),
        Err(e) => e,
    }
}

#[test]
fn scene() {
    let scene = parse_ok(SCENE);
    assert_eq!(scene.max_depth, Some(s("3")));
    assert_eq!(scene.num_samples, Some(s("1")));

    let CameraDesc { camera_type, film, origin, target, up, fov, lens_radius, focal_distance } = scene.camera;
    assert_eq!(camera_type, CameraType::Perspective);
    assert_eq!((film.width, film.height), (s("400"), s("300")));
    assert_eq!(origin, t3("0", "0", "0"));
    assert_eq!(target, t3("0", "0", "1"));
    assert_eq!(up, t3("0", "1", "0"));
    assert_eq!(fov, Some(s("60")));
    assert_eq!(lens_radius, Some(s("1")));
    assert_eq!(focal_distance, Some(s("100")));

    assert_eq!(scene.lights.len(), 1);
    match &scene.lights[0] {
        LightDesc::Point { origin, intensity } => {
            assert_eq!(*origin, t3("0", "0", "0"));
            assert_eq!(*intensity, t3("1", "1", "1"));
        },
        _ => panic!("expected a point light"),
    }

    assert_eq!(scene.materials.len(), 1);
    assert_eq!(scene.materials[0].0, "ball");
    match &scene.materials[0].1 {
        MaterialDesc::Matte { reflectance: TextureDesc::Constant(c), sigma: TextureDesc::Constant(n) } => {
            assert_eq!(*c, t3("1", "1", "1"));
            assert_eq!(*n, s("0"));
        },
        _ => panic!("expected a matte material"),
    }

    assert_eq!(scene.shapes.len(), 1);
    assert_eq!(scene.shapes[0].0, "ball");
    match &scene.shapes[0].1 {
        ShapeDesc::Sphere { origin, radius } => {
            assert_eq!(*origin, t3("0", "0", "2"));
            assert_eq!(*radius, s("1"));
        },
        _ => panic!("expected a sphere"),
    }

    assert_eq!(scene.primitives.len(), 2);
    match &scene.primitives[0] {
        PrimitiveDesc::Shape { shape, material } => assert_eq!((*shape, *material), (0, 0)),
        _ => panic!("expected a shape primitive"),
    }
    match &scene.primitives[1] {
        PrimitiveDesc::Mesh { file_name, fallback_material } => {
            assert_eq!(file_name, "objs/triangle.obj");
            assert_eq!(*fallback_material, 0);
        },
        _ => panic!("expected a mesh"),
    }
}

const MINIMAL: &str = "{
    camera: Orthographic { film: { width: 2, height: 1 }, origin: Point(0, 0, 0), target: Point(0, 0, 1), up: Vector(0, 1, 0) },
    lights: [],
    materials: { m: Metal { eta: Color(1, 1, 1), k: Checkerboard { a: Color(0, 0, 0), b: Color(1, 1, 1) } } },
    shapes: { a: Disk { origin: Point(0, 0, 0), radius: 2 }, b: Triangle { v0: Point(0,0,0), v1: Point(1,0,0), v2: Point(0,1,0) } },
    primitives: [ Shape { shape: 'b', emittance: Color(5, 5, 5) } ],
}";

#[test]
fn scene_defaults_and_area_lights() {
    let scene = parse_ok(MINIMAL);
    assert_eq!(scene.max_depth, None);
    assert_eq!(scene.num_samples, None);
    assert_eq!(scene.camera.camera_type, CameraType::Orthographic);
    assert_eq!(scene.camera.fov, None);
    assert_eq!(scene.camera.lens_radius, None);
    assert_eq!(scene.camera.focal_distance, None);
    assert!(scene.lights.is_empty());
    match &scene.materials[0].1 {
        MaterialDesc::Metal { eta: TextureDesc::Constant(e), k: TextureDesc::Checkerboard { a, b, scale } } => {
            assert_eq!(*e, t3("1", "1", "1"));
            assert_eq!(*a, t3("0", "0", "0"));
            assert_eq!(*b, t3("1", "1", "1"));
            assert_eq!(*scale, None);
        },
        _ => panic!("expected a metal material"),
    }
    match &scene.shapes[0].1 {
        ShapeDesc::Disk { rotate_x, rotate_y, radius, inner_radius, .. } => {
            assert_eq!((rotate_x.clone(), rotate_y.clone(), inner_radius.clone()), (None, None, None));
            assert_eq!(*radius, s("2"));
        },
        _ => panic!("expected a disk"),
    }
    match &scene.primitives[0] {
        PrimitiveDesc::AreaLight { shape, emittance } => {
            assert_eq!(*shape, 1);
            assert_eq!(*emittance, t3("5", "5", "5"));
        },
        _ => panic!("expected an area light"),
    }
}

#[test]
fn scene_name_errors() {
    let e = parse_err(&MINIMAL.replace("shape: 'b'", "shape: 'c'"));
    assert_eq!(e, ParserError::new("Cannot find shape named 'c'", &loc(6, 25)));

    let e = parse_err(&MINIMAL.replace("Shape { shape: 'b', emittance: Color(5, 5, 5) }", "Shape { shape: 'a', material: 'x' }"));
    assert_eq!(e, ParserError::new("Cannot find material named 'x'", &loc(6, 25)));

    let e = parse_err(&MINIMAL.replace("Shape { shape: 'b'", "Sphere { shape: 'b'"));
    assert_eq!(e, ParserError::new("Unknown primitive type: Sphere", &loc(6, 26)));
}

#[test]
fn scene_conversion_errors() {
    let e = parse_err(&MINIMAL.replace("Metal {", "Stone {"));
    assert_eq!(
        e,
        ParserError::new(
            "Error converting map value for 'materials' to expected type: Unknown material type: Stone",
            &loc(4, 27)
        )
    );

    let e = parse_err(&MINIMAL.replace("radius: 2", "radius: 'two'"));
    assert_eq!(
        e,
        ParserError::new(
            "Error converting map value for 'shapes' to expected type: Error converting map value for 'radius' to expected type: Cannot get Number, found String(\"two\")",
            &loc(5, 23)
        )
    );

    let e = parse_err(&MINIMAL.replace("Orthographic", "Fisheye"));
    assert_eq!(
        e,
        ParserError::new("Error converting map value for 'camera' to expected type: Unknown camera type: Fisheye", &loc(1, 1))
    );

    let e = parse_err(&MINIMAL.replace("lights: [],", "lights: [ Spot { intensity: Color(1, 1, 1) } ],"));
    assert_eq!(
        e,
        ParserError::new("Error converting map value for 'lights' to expected type: Unknown light type: Spot", &loc(1, 1))
    );

    let e = parse_err(&MINIMAL.replace("lights: [],", "lights: {},"));
    assert_eq!(
        e,
        ParserError::new("Error converting map value for 'lights' to expected type: Cannot get Array, found Map(RawValueMap { location: Location { line: 3, column: 13 }, map: {} })", &loc(1, 1))
    );

    let e = parse_err(&MINIMAL.replace("primitives: [", "primitives: [ 7, "));
    assert_eq!(
        e,
        ParserError::new(
            "Error converting map value for 'primitives' to expected type: Cannot get TypedRawValueMap, found Number(7.0)",
            &loc(1, 1)
        )
    );

    let e = parse_err(&MINIMAL.replace("width: 2", "width: Vector(1, 2.50, 3)"));
    assert_eq!(
        e,
        ParserError::new(
            "Error converting map value for 'camera' to expected type: Error converting map value for 'film' to expected type: Error converting map value for 'width' to expected type: Cannot get Number, found Vector(Vector(1.0, 2.5, 3.0))",
            &loc(2, 34)
        )
    );

    let e = parse_err("{ max_depth: 3 }");
    assert_eq!(e, ParserError::new("camera not found in map", &loc(1, 1)));

    let e = parse_err("{ num_samples: 'many' }");
    assert_eq!(
        e,
        ParserError::new("Error converting map value for 'num_samples' to expected type: Cannot get Number, found String(\"many\")", &loc(1, 1))
    );
}

#[test]
fn scene_syntax_errors_pass_through() {
    assert_eq!(parse_err("{ x: 'y"), ParserError::new("Unterminated string", &loc(1, 6)));
    assert_eq!(parse_err("[1]"), ParserError::new("Expected '{', got '['", &loc(1, 1)));
}

#[test]
fn lights_are_required() {
    assert_eq!(check_lights(0), Err(ParserError::new("No lights in the scene.", &loc(0, 0))));
    assert_eq!(check_lights(2), Ok(()));
}

#[test]
fn scene_references_resolve() {
    for input in [SCENE, MINIMAL] {
        let scene = parse_ok(input);
        for p in scene.primitives.iter() {
            match p {
                PrimitiveDesc::Shape { shape, material } => {
                    assert!(*shape < scene.shapes.len());
                    assert!(*material < scene.materials.len());
                }
                PrimitiveDesc::AreaLight { shape, .. } => assert!(*shape < scene.shapes.len()),
                PrimitiveDesc::Mesh { fallback_material, .. } => {
                    assert!(*fallback_material < scene.materials.len())
                }
            }
        }
    }
}

fn number(text: &str) -> RawValue {
    RawValue::Number(s(text))
}

#[test]
fn numbers_show_as_doubles_print() {
    for text in [
        "7", "2.50", "-0", "+0", "0", "000.000", "0.0001", "0.00001", "-0.000012", "123.456", "-45", "+3.25",
        "10000000000000000", "12300000000000000000", "0.000100", "1.5", "0.1",
    ] {
        let expected = format!("Number({:?})", text.parse::<f64>().unwrap());
        assert_eq!(show(&number(text)), expected, "{}", text);
    }
    assert_eq!(show(&number("0.00001")), "Number(1e-5)");
    assert_eq!(show(&number("10000000000000000")), "Number(1e16)");
    assert_eq!(show(&number("-0")), "Number(-0.0)");
}

#[test]
fn strings_show_escaped() {
    for text in ["two", "a\"b", "back\\slash", "tab\tline\nret\r", "nul\0", "bell\u{7}", "del\u{7f}", "it's", "caf\u{e9}", "a\u{301}", "\u{301}b", "soft\u{ad}hyphen", "zero\u{200b}width", "c1\u{85}", "nbsp\u{a0}", "\u{1f600}", "\u{10ffff}"] {
        let expected = format!("String({:?})", text);
        assert_eq!(show(&RawValue::String(s(text))), expected, "{}", text);
    }
}

#[test]
fn nested_values_show_as_debug() {
    let v = RawValue::Vector(s("1"), s("2.50"), s("-3"));
    assert_eq!(show(&v), "Vector(Vector(1.0, 2.5, -3.0))");
    let p = RawValue::Point(s("0"), s("0.5"), s("100000000000000000"));
    assert_eq!(show(&p), "Point(Point(0.0, 0.5, 1e17))");
    let c = RawValue::Color(s("1"), s("0.25"), s("0"));
    assert_eq!(show(&c), "Color(Color { r: 1.0, g: 0.25, b: 0.0 })");
    let m = RawValueMap {
        location: loc(2, 7),
        map: vec![(s("a"), number("1")), (s("b"), RawValue::String(s("x")))],
    };
    assert_eq!(
        show(&RawValue::Mapping(m)),
        "Map(RawValueMap { location: Location { line: 2, column: 7 }, map: {\"a\": Number(1.0), \"b\": String(\"x\")} })"
    );
    let inner = RawValueMap { location: loc(1, 8), map: vec![(s("radius"), number("2"))] };
    let mut t = TypedRawValueMap::new(s("Sphere"), inner);
    assert_eq!(
        show(&RawValue::TypedMap(TypedRawValueMap::new(s("Sphere"), RawValueMap { location: loc(1, 8), map: vec![] }))),
        "TypedMap(TypedRawValueMap { name: \"Sphere\", map: RawValueMap { location: Location { line: 1, column: 8 }, map: {} }, used_keys: {} })"
    );
    assert!(t.has("radius"));
    assert_eq!(
        show(&RawValue::TypedMap(t)),
        "TypedMap(TypedRawValueMap { name: \"Sphere\", map: RawValueMap { location: Location { line: 1, column: 8 }, map: {\"radius\": Number(2.0)} }, used_keys: {\"radius\"} })"
    );
    let a = RawValue::Array(RawValueArray { array: vec![number("1"), RawValue::Array(RawValueArray { array: vec![] })] });
    assert_eq!(show(&a), "Array(RawValueArray { array: [Number(1.0), Array(RawValueArray { array: [] })] })");
}

const WITH_EXTRA_KEYS: &str = "{
camera: Orthographic { film: { width: 2, height: 1 }, origin: Point(0, 0, 0), target: Point(0, 0, 1), up: Vector(0, 1, 0), zoom: 2 },
lights: [ Infinite { intensity: Color(1, 1, 1), sky: 1 } ],
materials: { m: Metal { eta: Color(1, 1, 1), k: Checkerboard { a: Color(0, 0, 0), b: Color(1, 1, 1), size: 3 } } },
shapes: { b: Triangle { v0: Point(0,0,0), v1: Point(1,0,0), v2: Point(0,1,0) } },
primitives: [ Shape { shape: 'b', emittance: Color(5, 5, 5), material: 'm' } ],
notes: Sphere { radius: 1 },
}";

#[test]
fn unused_keys_of_typed_maps_are_reported() {
    let (scene, unused) = parse_scene_reporting_unused(WITH_EXTRA_KEYS).unwrap();
    assert_eq!(scene.lights.len(), 1);
    let expected = vec![
        (s("Orthographic"), loc(2, 22), vec![s("zoom")]),
        (s("Infinite"), loc(3, 20), vec![s("sky")]),
        (s("Checkerboard"), loc(4, 62), vec![s("size")]),
        (s("Shape"), loc(6, 21), vec![s("material")]),
        (s("Sphere"), loc(7, 15), vec![s("radius")]),
    ];
    assert_eq!(unused, expected);
    let (_, none) = parse_scene_reporting_unused(MINIMAL).unwrap();
    assert!(none.is_empty());
    match parse_scene_reporting_unused(&MINIMAL.replace("radius: 2", "radius: 'two'")) {
        Err(e) => assert_eq!(e, parse_err(&MINIMAL.replace("radius: 2", "radius: 'two'"))),
        Ok(_) => panic!("expected an error"),
    }
}
