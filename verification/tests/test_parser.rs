use craytracer::scene_parser::parser::{
    RawValue, RawValueArray, RawValueMap, TokenStream, TypedRawValueMap,
};
use craytracer::scene_parser::tokenizer::{push_escaped_with, tokenize, CharsWithLocation, ParserError, Token, TokenValue};
use craytracer::scene_parser::Location;
use std::collections::HashMap;

/// A token value with numbers read as floats, for comparisons.
#[derive(Debug, PartialEq, Clone)]
enum Tv {
    Identifier(String),
    Number(f64),
    Str(String),
    LeftBrace,
    RightBrace,
    LeftBracket,
    RightBracket,
    LeftParen,
    RightParen,
    Comma,
    Colon,
    Eof,
}

fn tv(v: &TokenValue) -> Tv {
    match v {
        TokenValue::Identifier(s) => Tv::Identifier(s.clone()),
        TokenValue::Number(s) => Tv::Number(s.parse::<f64>().unwrap()),
        TokenValue::String(s) => Tv::Str(s.clone()),
        TokenValue::LeftBrace => Tv::LeftBrace,
        TokenValue::RightBrace => Tv::RightBrace,
        TokenValue::LeftBracket => Tv::LeftBracket,
        TokenValue::RightBracket => Tv::RightBracket,
        TokenValue::LeftParen => Tv::LeftParen,
        TokenValue::RightParen => Tv::RightParen,
        TokenValue::Comma => Tv::Comma,
        TokenValue::Colon => Tv::Colon,
        TokenValue::Eof => Tv::Eof,
    }
}

fn loc(line: usize, column: usize) -> Location {
    Location { line, column }
}

fn assert_token_values(input: &str, expected: &[Tv]) {
    let tokens = tokenize(input).unwrap();
    let values: Vec<Tv> = tokens.iter().map(|t| tv(&t.value)).collect();
    assert_eq!(values, expected, "tokens of {:?}", input);
}

fn assert_tokens(input: &str, expected: &[(Tv, Location)]) {
    let tokens = tokenize(input).unwrap();
    let got: Vec<(Tv, Location)> = tokens.iter().map(|t| (tv(&t.value), t.location)).collect();
    assert_eq!(got, expected);
}

fn assert_tokenize_error(input: &str, message: &str, location: &Location) {
    let e = tokenize(input).expect_err("Expected ParserError");
    assert_eq!(e, ParserError::new(message, location));
}

fn id(s: &str) -> Tv {
    Tv::Identifier(s.to_string())
}

fn st(s: &str) -> Tv {
    Tv::Str(s.to_string())
}

#[test]
fn simple() {
    assert_token_values("", &[Tv::Eof]);
    assert_token_values(" \r\t\n", &[Tv::Eof]);
    assert_token_values("// foo", &[Tv::Eof]);
    assert_token_values("{}", &[Tv::LeftBrace, Tv::RightBrace, Tv::Eof]);
    assert_token_values("[]", &[Tv::LeftBracket, Tv::RightBracket, Tv::Eof]);
    assert_token_values("()", &[Tv::LeftParen, Tv::RightParen, Tv::Eof]);
    assert_token_values("1", &[Tv::Number(1.0), Tv::Eof]);
    assert_token_values("'hello'", &[st("hello"), Tv::Eof]);
}

#[test]
fn comments() {
    assert_token_values("// foo = 'hello'", &[Tv::Eof]);
    assert_token_values("//\n", &[Tv::Eof]);
    assert_token_values("//\n1", &[Tv::Number(1.0), Tv::Eof]);
    assert_token_values("1 // one", &[Tv::Number(1.0), Tv::Eof]);

    assert_tokenize_error("/", "Expected a second '/' to start a comment", &loc(1, 2));
    assert_tokenize_error("/ /", "Expected a second '/' to start a comment", &loc(1, 2));
}

#[test]
fn numbers() {
    assert_token_values("1", &[Tv::Number(1.0), Tv::Eof]);
    assert_token_values("1.0", &[Tv::Number(1.0), Tv::Eof]);
    assert_token_values("1.0000", &[Tv::Number(1.0), Tv::Eof]);
    assert_token_values("001.0000", &[Tv::Number(1.0), Tv::Eof]);

    assert_token_values("-1", &[Tv::Number(-1.0), Tv::Eof]);
    assert_token_values("+1", &[Tv::Number(1.0), Tv::Eof]);
    assert_token_values("-1.1", &[Tv::Number(-1.1), Tv::Eof]);
    assert_token_values("+1.1", &[Tv::Number(1.1), Tv::Eof]);

    // no expression support
    assert_token_values("2+3", &[Tv::Number(2.0), Tv::Number(3.0), Tv::Eof]);
    assert_token_values("4-5", &[Tv::Number(4.0), Tv::Number(-5.0), Tv::Eof]);

    // malformed numbers
    assert_tokenize_error("9.8.7", "Unexpected character: '.'", &loc(1, 4));
}

#[test]
fn strings() {
    for s in [r#""""#, r#"''"#, "'a'", r#""Once upon a midnight dreary""#, r#"'"'"#, r#""'""#] {
        assert_token_values(s, &[st(&s[1..s.len() - 1]), Tv::Eof]);
    }
}

#[test]
fn identifiers() {
    for s in ["simple", "snake_case", "camelCase", "SCREAMING_CASE", "agent007"] {
        assert_token_values(s, &[id(s), Tv::Eof]);
    }
}

#[test]
fn locations() {
    assert_tokens(
        "{}",
        &[(Tv::LeftBrace, loc(1, 1)), (Tv::RightBrace, loc(1, 2)), (Tv::Eof, loc(1, 3))],
    );
    assert_tokens(
        "
{
    x: 1,
    y: ['foo', 3.14],
}",
        &[
            (Tv::LeftBrace, loc(2, 1)),
            (id("x"), loc(3, 5)),
            (Tv::Colon, loc(3, 6)),
            (Tv::Number(1.0), loc(3, 8)),
            (Tv::Comma, loc(3, 9)),
            (id("y"), loc(4, 5)),
            (Tv::Colon, loc(4, 6)),
            (Tv::LeftBracket, loc(4, 8)),
            (st("foo"), loc(4, 9)),
            (Tv::Comma, loc(4, 14)),
            (Tv::Number(3.14), loc(4, 16)),
            (Tv::RightBracket, loc(4, 20)),
            (Tv::Comma, loc(4, 21)),
            (Tv::RightBrace, loc(5, 1)),
            (Tv::Eof, loc(5, 2)),
        ],
    );
}

#[test]
fn full() {
    assert_token_values(
        r#"
{
    camera: ProjectionCamera {
        origin: Point(0, 8, -10),
        up: Vector(0, 1, 0),
        fov: 5,
    },
    materials: {
        sky: Emissive {
            emittance: Color(0, 10, 60)
        }
    },
    shapes: {
        sky: Sphere {
            center: Point(0, 0, 0),
            radius: 1000
        }
    },
    primitives: [
        Shape {
            shape: 'sky',
            material: 'sky'
        }
    ]
}
"#,
        &[
            Tv::LeftBrace,
            id("camera"),
            Tv::Colon,
            id("ProjectionCamera"),
            Tv::LeftBrace,
            id("origin"),
            Tv::Colon,
            id("Point"),
            Tv::LeftParen,
            Tv::Number(0.0),
            Tv::Comma,
            Tv::Number(8.0),
            Tv::Comma,
            Tv::Number(-10.0),
            Tv::RightParen,
            Tv::Comma,
            id("up"),
            Tv::Colon,
            id("Vector"),
            Tv::LeftParen,
            Tv::Number(0.0),
            Tv::Comma,
            Tv::Number(1.0),
            Tv::Comma,
            Tv::Number(0.0),
            Tv::RightParen,
            Tv::Comma,
            id("fov"),
            Tv::Colon,
            Tv::Number(5.0),
            Tv::Comma,
            Tv::RightBrace,
            Tv::Comma,
            id("materials"),
            Tv::Colon,
            Tv::LeftBrace,
            id("sky"),
            Tv::Colon,
            id("Emissive"),
            Tv::LeftBrace,
            id("emittance"),
            Tv::Colon,
            id("Color"),
            Tv::LeftParen,
            Tv::Number(0.0),
            Tv::Comma,
            Tv::Number(10.0),
            Tv::Comma,
            Tv::Number(60.0),
            Tv::RightParen,
            Tv::RightBrace,
            Tv::RightBrace,
            Tv::Comma,
            id("shapes"),
            Tv::Colon,
            Tv::LeftBrace,
            id("sky"),
            Tv::Colon,
            id("Sphere"),
            Tv::LeftBrace,
            id("center"),
            Tv::Colon,
            id("Point"),
            Tv::LeftParen,
            Tv::Number(0.0),
            Tv::Comma,
            Tv::Number(0.0),
            Tv::Comma,
            Tv::Number(0.0),
            Tv::RightParen,
            Tv::Comma,
            id("radius"),
            Tv::Colon,
            Tv::Number(1000.0),
            Tv::RightBrace,
            Tv::RightBrace,
            Tv::Comma,
            id("primitives"),
            Tv::Colon,
            Tv::LeftBracket,
            id("Shape"),
            Tv::LeftBrace,
            id("shape"),
            Tv::Colon,
            st("sky"),
            Tv::Comma,
            id("material"),
            Tv::Colon,
            st("sky"),
            Tv::RightBrace,
            Tv::RightBracket,
            Tv::RightBrace,
            Tv::Eof,
        ],
    )
}

/// A raw value with numbers read as floats and maps keyed by name.
#[derive(Debug, PartialEq)]
enum Rv {
    Number(f64),
    Str(String),
    Vector(f64, f64, f64),
    Point(f64, f64, f64),
    Color(f64, f64, f64),
    Dict(HashMap<String, Rv>, Location),
    TypedMap(String, HashMap<String, Rv>, Location),
    Array(Vec<Rv>),
}

fn num(s: &str) -> f64 {
    s.parse::<f64>().unwrap()
}

fn entries(m: &RawValueMap) -> HashMap<String, Rv> {
    m.map.iter().map(|(k, v)| (k.clone(), rv(v))).collect()
}

fn rv(v: &RawValue) -> Rv {
    match v {
        RawValue::Number(s) => Rv::Number(num(s)),
        RawValue::String(s) => Rv::Str(s.clone()),
        RawValue::Vector(x, y, z) => Rv::Vector(num(x), num(y), num(z)),
        RawValue::Point(x, y, z) => Rv::Point(num(x), num(y), num(z)),
        RawValue::Color(r, g, b) => Rv::Color(num(r), num(g), num(b)),
        RawValue::Mapping(m) => Rv::Dict(entries(m), m.location),
        RawValue::TypedMap(t) => Rv::TypedMap(t.name.clone(), entries(t.map()), *t.location()),
        RawValue::Array(a) => Rv::Array(a.array.iter().map(rv).collect()),
    }
}

fn parse_raw(s: &str) -> Result<RawValue, ParserError> {
    let tokens = tokenize(s).unwrap();
    let mut stream = TokenStream::new(&tokens);
    RawValue::from_tokens(&mut stream)
}

fn expect_raw_value(s: &str, expected: Rv) {
    let result = parse_raw(s).expect(&format!("{:?} failed to parse", s));
    assert_eq!(rv(&result), expected, "{:?} parsed to unexpected value", s);
}

fn expect_raw_value_map(s: &str, expected: HashMap<String, Rv>) {
    expect_raw_value(s, Rv::Dict(expected, loc(1, 1)));
}

fn expect_raw_value_array(s: &str, expected: Vec<Rv>) {
    expect_raw_value(s, Rv::Array(expected));
}

fn expect_parse_error(s: &str, error: &str, location: Option<Location>) {
    let result = parse_raw(s).expect_err(&format!("{:?} parsed succesfully", s));
    assert_eq!(result.message, error);
    assert_eq!(result.location, location);
}

fn hm(pairs: Vec<(&str, Rv)>) -> HashMap<String, Rv> {
    pairs.into_iter().map(|(k, v)| (k.to_string(), v)).collect()
}

#[test]
fn raw_value() {
    expect_raw_value("1.23", Rv::Number(1.23));
    expect_raw_value("'hello'", Rv::Str("hello".to_string()));
    expect_raw_value("Vector(1, -2, 3.1)", Rv::Vector(1.0, -2.0, 3.1));
    expect_raw_value("Color(0, 0.5, 1)", Rv::Color(0.0, 0.5, 1.0));
    expect_raw_value("{}", Rv::Dict(HashMap::new(), loc(1, 1)));
    expect_raw_value(
        "{ x: 1, y: 'z' }",
        Rv::Dict(hm(vec![("x", Rv::Number(1.0)), ("y", Rv::Str("z".to_string()))]), loc(1, 1)),
    );
    expect_raw_value(
        "Sphere { center: Point(0, 0, 0), radius: 1000 }",
        Rv::TypedMap(
            "Sphere".to_string(),
            hm(vec![("center", Rv::Point(0.0, 0.0, 0.0)), ("radius", Rv::Number(1000.0))]),
            loc(1, 8),
        ),
    );
    expect_raw_value("[]", Rv::Array(Vec::new()));
    expect_raw_value(
        "[1, 'foo', {}]",
        Rv::Array(vec![
            Rv::Number(1.0),
            Rv::Str("foo".to_string()),
            Rv::Dict(HashMap::new(), loc(1, 12)),
        ]),
    );

    expect_parse_error("x", "Expected '(' or '{', got EOF", Some(loc(1, 2)));
    expect_parse_error(",", "Expected a raw value. Got ','", Some(loc(1, 1)));
}

#[test]
fn raw_value_map() {
    expect_raw_value_map("{}", HashMap::new());
    expect_raw_value_map("{ hello: 'world' }", hm(vec![("hello", Rv::Str("world".to_string()))]));
    // Trailing comma
    expect_raw_value_map("{ hello: 'world', }", hm(vec![("hello", Rv::Str("world".to_string()))]));
    expect_raw_value_map(
        "{ x: 1, y: 'z', v: Vector(1,2,3), c: Color(1,0,0) }",
        hm(vec![
            ("x", Rv::Number(1.0)),
            ("y", Rv::Str("z".to_string())),
            ("v", Rv::Vector(1.0, 2.0, 3.0)),
            ("c", Rv::Color(1.0, 0.0, 0.0)),
        ]),
    );

    expect_parse_error("{ x: 1, x: 2 }", "Duplicate key x", Some(loc(1, 1)));
    expect_parse_error("{ x: 1", "Expected '}', got EOF", Some(loc(1, 7)));
    expect_parse_error("{ x 1 }", "Expected ':', got '1'", Some(loc(1, 5)));
    expect_parse_error("{ 1: x }", "Expected '}', got '1'", Some(loc(1, 3)));
    expect_parse_error("{ x: 1 y: 2 }", "Expected '}', got 'y'", Some(loc(1, 8)));
}

#[test]
fn raw_value_array() {
    expect_raw_value_array("[]", Vec::new());
    expect_raw_value_array("[1, 2, 3]", vec![Rv::Number(1.0), Rv::Number(2.0), Rv::Number(3.0)]);
    expect_raw_value_array("[1, 2, 3,]", vec![Rv::Number(1.0), Rv::Number(2.0), Rv::Number(3.0)]);
    expect_raw_value_array(
        "[1, 'foo', {}]",
        vec![Rv::Number(1.0), Rv::Str("foo".to_string()), Rv::Dict(HashMap::new(), loc(1, 12))],
    );

    expect_parse_error("[", "Expected a raw value. Got EOF", Some(loc(1, 2)));
    expect_parse_error("[,]", "Expected a raw value. Got ','", Some(loc(1, 2)));
    expect_parse_error("[1 2]", "Expected ']', got '2'", Some(loc(1, 4)));
}

// ----- further cases -----

#[test]
fn tokenize_error_variants() {
    assert_tokenize_error("'abc", "Unterminated string", &loc(1, 1));
    assert_tokenize_error("\n  \"x", "Unterminated string", &loc(2, 3));
    assert_tokenize_error("+", "Cannot parse '+' as number", &loc(1, 1));
    assert_tokenize_error("x -.", "Cannot parse '-.' as number", &loc(1, 3));
    assert_tokenize_error("a # b", "Unexpected character: '#'", &loc(1, 3));
}

#[test]
fn numbers_keep_their_text() {
    let tokens = tokenize("001.50 -0 +7").unwrap();
    assert_eq!(tokens[0].value, TokenValue::Number("001.50".to_string()));
    assert_eq!(tokens[1].value, TokenValue::Number("-0".to_string()));
    assert_eq!(tokens[2].value, TokenValue::Number("+7".to_string()));
    assert_eq!(tokens[3].value, TokenValue::Eof);
}

#[test]
fn token_display() {
    assert_eq!(TokenValue::Number("001.50".to_string()).to_string(), "'1.5'");
    assert_eq!(TokenValue::Number("+2.000".to_string()).to_string(), "'2'");
    assert_eq!(TokenValue::Number("-0.250".to_string()).to_string(), "'-0.25'");
    assert_eq!(TokenValue::Number("10".to_string()).to_string(), "'10'");
    assert_eq!(TokenValue::Identifier("abc".to_string()).to_string(), "'abc'");
    assert_eq!(TokenValue::String("s".to_string()).to_string(), "'s'");
    assert_eq!(TokenValue::Colon.to_string(), "':'");
    assert_eq!(TokenValue::Eof.to_string(), "EOF");
    assert!(TokenValue::Number("1".to_string()).is_eq_variant(&TokenValue::Number("2".to_string())));
    assert!(!TokenValue::Comma.is_eq_variant(&TokenValue::Colon));
}

#[test]
fn canonical_number_in_error() {
    expect_parse_error("{ x 1.50 }", "Expected ':', got '1.5'", Some(loc(1, 5)));
    expect_parse_error("Vector(1, 2 3)", "Expected ',', got '3'", Some(loc(1, 13)));
    expect_parse_error("Point(1, x, 3)", "Expected number, got 'x'", Some(loc(1, 10)));
    expect_parse_error("Sphere 2", "Expected '(' or '{', got '2'", Some(loc(1, 8)));
}

#[test]
fn chars_with_location_steps() {
    let mut chars = CharsWithLocation::new("a\nbc");
    assert_eq!(chars.location(), loc(1, 1));
    assert_eq!(chars.peek(), Some(&'a'));
    assert_eq!(chars.next(), Some('a'));
    assert_eq!(chars.location(), loc(1, 2));
    assert_eq!(chars.next(), Some('\n'));
    assert_eq!(chars.location(), loc(2, 1));
    assert_eq!(chars.next(), Some('b'));
    assert_eq!(chars.next(), Some('c'));
    assert_eq!(chars.location(), loc(2, 3));
    assert_eq!(chars.peek(), None);
    assert_eq!(chars.next(), None);
    assert_eq!(chars.location(), loc(2, 3));
}

#[test]
fn tokens_end_with_eof() {
    for s in ["", "{ a: 1 }", "[1, 2", "// c\n'x'"] {
        let tokens = tokenize(s).unwrap();
        assert_eq!(tokens.last().unwrap().value, TokenValue::Eof);
        assert_eq!(tokens.iter().filter(|t| t.value == TokenValue::Eof).count(), 1);
    }
    let t = Token::new(TokenValue::Comma, loc(3, 4));
    assert_eq!(t.clone(), t);
}

#[test]
fn token_stream_peek_and_next() {
    let tokens = tokenize("a b").unwrap();
    let mut stream = TokenStream::new(&tokens);
    assert_eq!(stream.peek().unwrap().value, TokenValue::Identifier("a".to_string()));
    assert_eq!(stream.next().unwrap().value, TokenValue::Identifier("a".to_string()));
    assert_eq!(stream.next().unwrap().value, TokenValue::Identifier("b".to_string()));
    assert_eq!(stream.peek().unwrap().value, TokenValue::Eof);
    assert_eq!(stream.next().unwrap().value, TokenValue::Eof);
    assert!(stream.peek().is_none());
    assert!(stream.next().is_none());
}

#[test]
fn map_and_array_parsers_directly() {
    let tokens = tokenize("{ a: 1 } rest").unwrap();
    let mut stream = TokenStream::new(&tokens);
    let m = RawValueMap::from_tokens(&mut stream).unwrap();
    assert_eq!(m.location, loc(1, 1));
    assert_eq!(m.map.len(), 1);
    assert_eq!(m.map[0].0, "a");
    assert_eq!(stream.next().unwrap().value, TokenValue::Identifier("rest".to_string()));

    let tokens = tokenize("[[], [1]]").unwrap();
    let mut stream = TokenStream::new(&tokens);
    let a = RawValueArray::from_tokens(&mut stream).unwrap();
    assert_eq!(
        rv(&RawValue::Array(a)),
        Rv::Array(vec![Rv::Array(vec![]), Rv::Array(vec![Rv::Number(1.0)])])
    );
}

fn number_of(v: &mut RawValue) -> Result<f64, ParserError> {
    match v {
        RawValue::Number(s) => Ok(s.parse::<f64>().unwrap()),
        _ => Err(ParserError::without_location("Expected a number")),
    }
}

fn text_of(v: &mut RawValue) -> Result<String, ParserError> {
    match v {
        RawValue::String(s) => Ok(s.clone()),
        _ => Err(ParserError::new("Expected a string", &Location { line: 9, column: 9 })),
    }
}

fn parse_map(s: &str) -> RawValueMap {
    match parse_raw(s).unwrap() {
        RawValue::Mapping(m) => m,
        other => panic!("not a map: {:?}", other),
    }
}

fn parse_typed(s: &str) -> TypedRawValueMap {
    match parse_raw(s).unwrap() {
        RawValue::TypedMap(m) => m,
        other => panic!("not a typed map: {:?}", other),
    }
}

#[test]
fn map_lookups() {
    let mut m = parse_map("{ x: 2, name: 'n' }");
    assert!(m.has("x"));
    assert!(!m.has("y"));
    assert_eq!(m.get("x", number_of), Ok(2.0));
    assert_eq!(m.get("name", text_of), Ok("n".to_string()));
    assert_eq!(m.get_or("y", 7.0, number_of), Ok(7.0));
    assert_eq!(m.get_or("x", 7.0, number_of), Ok(2.0));

    let e = m.get("y", number_of).unwrap_err();
    assert_eq!(e, ParserError::new("y not found in map", &loc(1, 1)));

    let e = m.get("name", number_of).unwrap_err();
    assert_eq!(
        e,
        ParserError::new(
            "Error converting map value for 'name' to expected type: Expected a number",
            &loc(1, 1)
        )
    );
    let e = m.get_or("x", String::new(), text_of).unwrap_err();
    assert_eq!(
        e,
        ParserError::new(
            "Error converting map value for 'x' to expected type: Expected a string",
            &loc(9, 9)
        )
    );
}

#[test]
fn typed_map_records_used_keys() {
    let mut t = parse_typed("Sphere { center: 'c', radius: 2, extra: 3 }");
    assert_eq!(t.name, "Sphere");
    assert_eq!(*t.location(), loc(1, 8));
    assert_eq!(t.unused_keys(), vec!["center", "radius", "extra"]);
    assert_eq!(t.get("radius", number_of), Ok(2.0));
    assert!(t.has("center"));
    assert!(!t.has("missing"));
    assert_eq!(t.get_or("also_missing", 1.0, number_of), Ok(1.0));
    assert_eq!(t.unused_keys(), vec!["extra"]);
    assert_eq!(t.map().map.len(), 3);
}

#[test]
fn typed_map_new_has_no_used_keys() {
    let m = RawValueMap { location: loc(2, 3), map: vec![("k".to_string(), RawValue::Number("1".to_string()))] };
    let t = TypedRawValueMap::new("T".to_string(), m);
    assert_eq!(t.name, "T");
    assert_eq!(*t.location(), loc(2, 3));
    assert_eq!(t.unused_keys(), vec!["k"]);
}

#[test]
fn parsed_maps_never_repeat_keys() {
    let m = parse_map("{ a: 1, b: { a: 2 }, c: [ { a: 3, b: 4 } ] }");
    let keys: Vec<&String> = m.map.iter().map(|(k, _)| k).collect();
    assert_eq!(keys, vec!["a", "b", "c"]);
    expect_parse_error("{ a: 1, b: 2, a: 3 }", "Duplicate key a", Some(loc(1, 1)));
    expect_parse_error("{ a: { b: 1, b: 1 } }", "Duplicate key b", Some(loc(1, 6)));
}

#[test]
fn parser_error_constructors() {
    let e = ParserError::new("m", &loc(4, 5));
    assert_eq!(e.message, "m");
    assert_eq!(e.location, Some(loc(4, 5)));
    let e = ParserError::without_location("w");
    assert_eq!(e.message, "w");
    assert_eq!(e.location, None);
}

#[test]
fn map_equality_ignores_entry_order() {
    let a = parse_map("{ c: { d: 2, e: 3 }, a: 1, b: 'x' }");
    let b = parse_map("{ c: { e: 3, d: 2 }, b: 'x', a: 1 }");
    assert!(a == b);
    assert!(b == a);
    let c = parse_map("{ c: { d: 2, e: 3 }, a: 1, b: 'y' }");
    assert!(a != c);
    let d = parse_map("{ c: { d: 2, e: 3 }, a: 1 }");
    assert!(a != d);
    assert!(d != a);
    let moved = parse_map("\n{ c: { d: 2, e: 3 }, a: 1, b: 'x' }");
    assert!(a != moved);
    let inner_moved = parse_map("{ c:  { d: 2, e: 3 }, a: 1, b: 'x' }");
    assert!(a != inner_moved);
}

#[test]
fn array_equality_keeps_item_order() {
    let a = parse_raw("[ 1, 2 ]").unwrap();
    let b = parse_raw("[ 2, 1 ]").unwrap();
    assert!(a == parse_raw("[ 1, 2 ]").unwrap());
    assert!(a != b);
}

#[test]
fn typed_map_equality_compares_name_entries_and_used_keys() {
    let mut a = parse_typed("Sphere { radius: 1, center: Point(0, 0, 0) }");
    let mut b = parse_typed("Sphere { center: Point(0, 0, 0), radius: 1 }");
    assert!(a == b);
    assert!(a.has("radius"));
    assert!(a != b);
    assert!(b.has("radius"));
    assert!(a == b);
    let c = parse_typed("Disk { radius: 1, center: Point(0, 0, 0) }");
    assert!(parse_typed("Sphere { radius: 1, center: Point(0, 0, 0) }") != c);
}

#[test]
fn numbers_compare_by_value() {
    assert!(parse_raw("1").unwrap() == parse_raw("1.0").unwrap());
    assert!(parse_raw("-0").unwrap() == parse_raw("0.000").unwrap());
    assert!(parse_raw("2.50").unwrap() == parse_raw("+2.5").unwrap());
    assert!(parse_raw("2.5").unwrap() != parse_raw("2.05").unwrap());
    assert!(parse_raw("Vector(1, 2, 3)").unwrap() == parse_raw("Vector(1.0, 2.00, 3)").unwrap());
    assert!(parse_raw("Vector(1, 2, 3)").unwrap() != parse_raw("Point(1, 2, 3)").unwrap());
    assert!(parse_raw("{ a: 10 }").unwrap() == parse_raw("{ a: 10.0 }").unwrap());
    let t = tokenize("1.50 x").unwrap();
    let u = tokenize("1.5  x").unwrap();
    assert!(t == u);
    assert!(t[0].value == TokenValue::Number("1.5".to_string()));
    assert!(t[1].value != TokenValue::Identifier("y".to_string()));
    assert!(t[1] != u[0]);
}

#[test]
fn lookups_keep_the_keys_of_a_map() {
    let mut m = parse_map("{ a: 1, b: 'x', c: 2 }");
    assert_eq!(m.get_or("b", 0.0, number_of).map_err(|e| e.message).unwrap_err(), "Error converting map value for 'b' to expected type: Expected a number");
    assert_eq!(m.get_or("z", 3.0, number_of), Ok(3.0));
    assert_eq!(m.get("c", number_of), Ok(2.0));
    let keys: Vec<&String> = m.map.iter().map(|(k, _)| k).collect();
    assert_eq!(keys, vec!["a", "b", "c"]);
    let mut t = parse_typed("T { a: 1, b: 2 }");
    assert_eq!(t.get_or("b", 0.0, number_of), Ok(2.0));
    assert_eq!(t.name, "T");
    let keys: Vec<&String> = t.map().map.iter().map(|(k, _)| k).collect();
    assert_eq!(keys, vec!["a", "b"]);
}

#[test]
fn token_locations_increase_and_eof_ends_the_input() {
    let input = "{ a: [1, 'x'],\n  b: Point(0, 0, 0) }\n// done";
    let tokens = tokenize(input).unwrap();
    for w in tokens.windows(2) {
        let (a, b) = (w[0].location, w[1].location);
        assert!(a.line < b.line || (a.line == b.line && a.column < b.column), "{:?} {:?}", a, b);
    }
    let last = tokens.last().unwrap();
    assert!(last.value == TokenValue::Eof);
    assert_eq!(last.location, loc(3, 8));
}

#[test]
fn a_value_is_read_exactly() {
    let tokens = tokenize("Sphere { r: 1 } , 7").unwrap();
    let mut stream = TokenStream::new(&tokens);
    let v = RawValue::from_tokens(&mut stream).unwrap();
    assert!(matches!(v, RawValue::TypedMap(_)));
    assert!(stream.peek().unwrap().value == TokenValue::Comma);
    let other = tokenize("Sphere { r: 1 } ]").unwrap();
    let mut stream2 = TokenStream::new(&other);
    let w = RawValue::from_tokens(&mut stream2).unwrap();
    assert!(v == w);
    assert!(stream2.peek().unwrap().value == TokenValue::RightBracket);
}

#[test]
fn characters_escape_as_debug_strings_do() {
    let mut out: Vec<char> = Vec::new();
    push_escaped_with(&mut out, '\n', "unused");
    push_escaped_with(&mut out, '"', "unused");
    push_escaped_with(&mut out, '\u{1}', "unused");
    push_escaped_with(&mut out, 'a', "unused");
    push_escaped_with(&mut out, '\u{ad}', "<given>");
    assert_eq!(out.iter().collect::<String>(), "\\n\\\"\\u{1}a<given>");
}
