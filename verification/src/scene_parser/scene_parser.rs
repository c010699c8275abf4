use vstd::prelude::*;
use super::{Location, decimal, decimal_string};
use super::tokenizer::{
    ParserError, ErrorSpec, TokenSpec, concat, error_at, tokenize,
    debug_number_text, debug_number_text_of, debug_str, debug_str_of,
    spec_tokenize, tokens_view, lemma_tokens_end_with_eof,
};
use super::parser::{
    RawValue, RawValueMap, RawModel, MapModel, TypedRawValueMap, key_index, not_found_error, conversion_error,
    conversion_failure, lemma_raw_model, lemma_map_entries, lemma_array_items, text_is, parse_map,
    TokenStream, strings_model, RawValueArray,
};
use crate::geometry::CameraType;
use super::unused::{unused_scene_keys, scene_reports, reports_view};

verus! {

// ----- how values are shown in messages -----

/// Three numbers separated by commas, each as it prints with `{:?}`.
pub open spec fn triple_text(x: Seq<char>, y: Seq<char>, z: Seq<char>) -> Seq<char> {
    debug_number_text(x) + ", "@ + debug_number_text(y) + ", "@ + debug_number_text(z)
}

/// How a raw value prints with `{:?}`, as in `Number(7.0)`,
/// `String("two")` or `Map(RawValueMap { location: .., map: {..} })`.
/// Numbers and strings print as `debug_number_text` and `debug_str` say;
/// the entries of a map print in the order they were written.
pub open spec fn shown(v: RawModel) -> Seq<char>
    decreases v, 0int,
{
    match v {
        RawModel::Number(s) => "Number("@ + debug_number_text(s) + ")"@,
        RawModel::Str(s) => "String("@ + debug_str(s) + ")"@,
        RawModel::Vector(x, y, z) => "Vector(Vector("@ + triple_text(x, y, z) + "))"@,
        RawModel::Point(x, y, z) => "Point(Point("@ + triple_text(x, y, z) + "))"@,
        RawModel::Color(x, y, z) => "Color(Color { r: "@ + debug_number_text(x) + ", g: "@ + debug_number_text(y) + ", b: "@
            + debug_number_text(z) + " })"@,
        RawModel::Mapping(m) => "Map("@ + shown_map(m) + ")"@,
        RawModel::TypedMap(name, m, used) => "TypedMap(TypedRawValueMap { name: "@ + debug_str(name) + ", map: "@ + shown_map(m)
            + ", used_keys: {"@ + shown_keys(used, used.len() as int) + "} })"@,
        RawModel::Array(xs) => "Array(RawValueArray { array: ["@ + shown_items(xs, xs.len() as int) + "] })"@,
    }
}

/// How a map prints with `{:?}`: its location, then its entries.
pub open spec fn shown_map(m: MapModel) -> Seq<char>
    decreases m, 0int,
{
    "RawValueMap { location: Location { line: "@ + decimal(m.location.line as nat) + ", column: "@ + decimal(
        m.location.column as nat,
    ) + " }, map: {"@ + shown_entries(m.entries, m.entries.len() as int) + "} }"@
}

/// The first `n` entries, each as `"key": value`, separated by commas.
pub open spec fn shown_entries(es: Seq<(Seq<char>, RawModel)>, n: int) -> Seq<char>
    decreases es, n,
{
    if n <= 0 || n > es.len() {
        Seq::empty()
    } else if n == 1 {
        debug_str(es[0].0) + ": "@ + shown(es[0].1)
    } else {
        shown_entries(es, n - 1) + ", "@ + debug_str(es[n - 1].0) + ": "@ + shown(es[n - 1].1)
    }
}

/// The first `n` items, separated by commas.
pub open spec fn shown_items(xs: Seq<RawModel>, n: int) -> Seq<char>
    decreases xs, n,
{
    if n <= 0 || n > xs.len() {
        Seq::empty()
    } else if n == 1 {
        shown(xs[0])
    } else {
        shown_items(xs, n - 1) + ", "@ + shown(xs[n - 1])
    }
}

/// The first `n` keys, each quoted, separated by commas.
pub open spec fn shown_keys(keys: Seq<Seq<char>>, n: int) -> Seq<char>
    decreases n,
{
    if n <= 0 || n > keys.len() {
        Seq::empty()
    } else if n == 1 {
        debug_str(keys[0])
    } else {
        shown_keys(keys, n - 1) + ", "@ + debug_str(keys[n - 1])
    }
}

/// The error for a value of the wrong kind, where a `what` was wanted.
pub open spec fn cannot_get(what: Seq<char>, v: RawModel) -> ErrorSpec {
    ErrorSpec { message: "Cannot get "@ + what + ", found "@ + shown(v), location: None }
}

fn triple_string(x: &String, y: &String, z: &String) -> (r: String)
    ensures
        r@ == triple_text(x@, y@, z@),
{
    let a = debug_number_text_of(x);
    let b = debug_number_text_of(y);
    let c = debug_number_text_of(z);
    let r = concat(concat(concat(concat(a.as_str(), ", ").as_str(), b.as_str()).as_str(), ", ").as_str(), c.as_str());
    r
}

/// Joins `a`, `sep` and `b`, leaving out `sep` when `a` is the first part.
fn join(first: bool, a: &String, sep: &str, b: &String) -> (r: String)
    ensures
        r@ == if first {
            b@
        } else {
            a@ + sep@ + b@
        },
{
    if first {
        b.clone()
    } else {
        concat(concat(a.as_str(), sep).as_str(), b.as_str())
    }
}

/// Shows a map as `shown_map` describes it.
fn show_map(m: &RawValueMap) -> (r: String)
    ensures
        r@ == shown_map(m@),
    decreases m, 0int,
{
    proof {
        lemma_map_entries(*m);
    }
    let mut acc = String::new();
    let mut k: usize = 0;
    while k < m.map.len()
        invariant
            k <= m.map@.len(),
            m@.entries.len() == m.map@.len(),
            forall|j: int| 0 <= j < m.map@.len() ==> #[trigger] m@.entries[j] == (m.map@[j].0@, m.map@[j].1@),
            acc@ == shown_entries(m@.entries, k as int),
        decreases m.map@.len() - k,
    {
        let key = debug_str_of(m.map[k].0.as_str());
        let value = show(&m.map[k].1);
        let entry = concat(concat(key.as_str(), ": ").as_str(), value.as_str());
        acc = join(k == 0, &acc, ", ", &entry);
        k += 1;
    }
    let line = decimal_string(m.location.line);
    let column = decimal_string(m.location.column);
    concat(
        concat(
            concat(
                concat(concat(concat("RawValueMap { location: Location { line: ", line.as_str()).as_str(), ", column: ").as_str(), column.as_str()).as_str(),
                " }, map: {",
            ).as_str(),
            acc.as_str(),
        ).as_str(),
        "} }",
    )
}

/// Shows the asked-for keys of a typed map as `shown_keys` describes them.
fn show_keys(keys: &Vec<String>) -> (r: String)
    ensures
        r@ == shown_keys(strings_model(keys@), keys@.len() as int),
{
    let mut acc = String::new();
    let mut k: usize = 0;
    while k < keys.len()
        invariant
            k <= keys@.len(),
            acc@ == shown_keys(strings_model(keys@), k as int),
        decreases keys@.len() - k,
    {
        let key = debug_str_of(keys[k].as_str());
        acc = join(k == 0, &acc, ", ", &key);
        k += 1;
    }
    acc
}

/// Shows the items of an array as `shown_items` describes them.
fn show_items(a: &RawValueArray) -> (r: String)
    ensures
        r@ == shown_items(a@, a@.len() as int),
    decreases a, 0int,
{
    proof {
        lemma_array_items(*a);
    }
    let mut acc = String::new();
    let mut k: usize = 0;
    while k < a.array.len()
        invariant
            k <= a.array@.len(),
            a@.len() == a.array@.len(),
            forall|j: int| 0 <= j < a.array@.len() ==> #[trigger] a@[j] == a.array@[j]@,
            acc@ == shown_items(a@, k as int),
        decreases a.array@.len() - k,
    {
        let item = show(&a.array[k]);
        acc = join(k == 0, &acc, ", ", &item);
        k += 1;
    }
    acc
}

/// Shows a raw value as `shown` describes it.
pub fn show(v: &RawValue) -> (r: String)
    ensures
        r@ == shown(v@),
    decreases v, 0int,
{
    proof {
        lemma_raw_model(*v);
    }
    match v {
        RawValue::Number(s) => concat(concat("Number(", debug_number_text_of(s).as_str()).as_str(), ")"),
        RawValue::String(s) => concat(concat("String(", debug_str_of(s.as_str()).as_str()).as_str(), ")"),
        RawValue::Vector(x, y, z) => concat(concat("Vector(Vector(", triple_string(x, y, z).as_str()).as_str(), "))"),
        RawValue::Point(x, y, z) => concat(concat("Point(Point(", triple_string(x, y, z).as_str()).as_str(), "))"),
        RawValue::Color(x, y, z) => {
            let r = debug_number_text_of(x);
            let g = debug_number_text_of(y);
            let b = debug_number_text_of(z);
            concat(
                concat(
                    concat(concat(concat(concat("Color(Color { r: ", r.as_str()).as_str(), ", g: ").as_str(), g.as_str()).as_str(), ", b: ").as_str(),
                    b.as_str(),
                ).as_str(),
                " })",
            )
        },
        RawValue::Mapping(m) => concat(concat("Map(", show_map(m).as_str()).as_str(), ")"),
        RawValue::TypedMap(t) => {
            let name = debug_str_of(t.name().as_str());
            proof {
                t.lemma_map_is_part();
            }
            let map = show_map(t.map());
            let keys = show_keys(t.used_keys());
            concat(
                concat(
                    concat(
                        concat(concat(concat("TypedMap(TypedRawValueMap { name: ", name.as_str()).as_str(), ", map: ").as_str(), map.as_str()).as_str(),
                        ", used_keys: {",
                    ).as_str(),
                    keys.as_str(),
                ).as_str(),
                "} })",
            )
        },
        RawValue::Array(a) => concat(concat("Array(RawValueArray { array: [", show_items(a).as_str()).as_str(), "] })"),
    }
}

fn wrong_kind(what: &str, v: &RawValue) -> (e: ParserError)
    ensures
        e@ == cannot_get(what@, v@),
{
    let shown = show(v);
    let message = concat(concat(concat("Cannot get ", what).as_str(), ", found ").as_str(), shown.as_str());
    ParserError::without_location(message.as_str())
}

// ----- agreement of results with their models -----

/// A result agrees with a model when both succeed with matching values or
/// both fail with the same error.
pub open spec fn agrees<T: View>(r: Result<T, ParserError>, s: Result<T::V, ErrorSpec>) -> bool {
    match (r, s) {
        (Ok(a), Ok(b)) => a@ == b,
        (Err(e), Err(f)) => e@ == f,
        _ => false,
    }
}

/// Like `agrees`, for a value that may be absent.
pub open spec fn agrees_opt<T: View>(r: Result<Option<T>, ParserError>, s: Result<Option<T::V>, ErrorSpec>) -> bool {
    match (r, s) {
        (Ok(Some(a)), Ok(Some(b))) => a@ == b,
        (Ok(None), Ok(None)) => true,
        (Err(e), Err(f)) => e@ == f,
        _ => false,
    }
}

// ----- scalar conversions -----

pub open spec fn number_of(v: RawModel) -> Result<Seq<char>, ErrorSpec> {
    match v {
        RawModel::Number(s) => Ok(s),
        _ => Err(cannot_get("Number"@, v)),
    }
}

pub open spec fn string_of(v: RawModel) -> Result<Seq<char>, ErrorSpec> {
    match v {
        RawModel::Str(s) => Ok(s),
        _ => Err(cannot_get("String"@, v)),
    }
}

pub open spec fn vector_of(v: RawModel) -> Result<(Seq<char>, Seq<char>, Seq<char>), ErrorSpec> {
    match v {
        RawModel::Vector(x, y, z) => Ok((x, y, z)),
        _ => Err(cannot_get("Vector"@, v)),
    }
}

pub open spec fn point_of(v: RawModel) -> Result<(Seq<char>, Seq<char>, Seq<char>), ErrorSpec> {
    match v {
        RawModel::Point(x, y, z) => Ok((x, y, z)),
        _ => Err(cannot_get("Point"@, v)),
    }
}

pub open spec fn color_of(v: RawModel) -> Result<(Seq<char>, Seq<char>, Seq<char>), ErrorSpec> {
    match v {
        RawModel::Color(x, y, z) => Ok((x, y, z)),
        _ => Err(cannot_get("Color"@, v)),
    }
}

pub open spec fn as_number() -> spec_fn(RawModel) -> Result<Seq<char>, ErrorSpec> {
    |v: RawModel| number_of(v)
}

pub open spec fn as_string() -> spec_fn(RawModel) -> Result<Seq<char>, ErrorSpec> {
    |v: RawModel| string_of(v)
}

pub open spec fn as_vector() -> spec_fn(RawModel) -> Result<(Seq<char>, Seq<char>, Seq<char>), ErrorSpec> {
    |v: RawModel| vector_of(v)
}

pub open spec fn as_point() -> spec_fn(RawModel) -> Result<(Seq<char>, Seq<char>, Seq<char>), ErrorSpec> {
    |v: RawModel| point_of(v)
}

pub open spec fn as_color() -> spec_fn(RawModel) -> Result<(Seq<char>, Seq<char>, Seq<char>), ErrorSpec> {
    |v: RawModel| color_of(v)
}

/// The text of a number.
pub fn number_value(v: &RawValue) -> (r: Result<String, ParserError>)
    ensures
        agrees(r, number_of(v@)),
{
    proof {
        lemma_raw_model(*v);
    }
    match v {
        RawValue::Number(s) => Ok(s.clone()),
        _ => Err(wrong_kind("Number", v)),
    }
}

/// A string.
pub fn string_value(v: &RawValue) -> (r: Result<String, ParserError>)
    ensures
        agrees(r, string_of(v@)),
{
    proof {
        lemma_raw_model(*v);
    }
    match v {
        RawValue::String(s) => Ok(s.clone()),
        _ => Err(wrong_kind("String", v)),
    }
}

/// The components of a vector.
pub fn vector_value(v: &RawValue) -> (r: Result<(String, String, String), ParserError>)
    ensures
        agrees(r, vector_of(v@)),
{
    proof {
        lemma_raw_model(*v);
    }
    match v {
        RawValue::Vector(x, y, z) => Ok((x.clone(), y.clone(), z.clone())),
        _ => Err(wrong_kind("Vector", v)),
    }
}

/// The co-ordinates of a point.
pub fn point_value(v: &RawValue) -> (r: Result<(String, String, String), ParserError>)
    ensures
        agrees(r, point_of(v@)),
{
    proof {
        lemma_raw_model(*v);
    }
    match v {
        RawValue::Point(x, y, z) => Ok((x.clone(), y.clone(), z.clone())),
        _ => Err(wrong_kind("Point", v)),
    }
}

/// The channels of a color.
pub fn color_value(v: &RawValue) -> (r: Result<(String, String, String), ParserError>)
    ensures
        agrees(r, color_of(v@)),
{
    proof {
        lemma_raw_model(*v);
    }
    match v {
        RawValue::Color(x, y, z) => Ok((x.clone(), y.clone(), z.clone())),
        _ => Err(wrong_kind("Color", v)),
    }
}

// ----- map fields -----

/// The value under `key` converted by `conv`. A missing key is an error at
/// the map's location; a failed conversion is reported with the key.
pub open spec fn field<M>(m: MapModel, key: Seq<char>, conv: spec_fn(RawModel) -> Result<M, ErrorSpec>) -> Result<M, ErrorSpec> {
    match key_index(m.entries, key, 0) {
        None => Err(not_found_error(key, m.location)),
        Some(i) => match conv(m.entries[i].1) {
            Ok(x) => Ok(x),
            Err(e) => Err(conversion_error(key, e, m.location)),
        },
    }
}

/// Like `field`, but a missing key gives `None`, for which a default is used.
pub open spec fn optional_field<M>(m: MapModel, key: Seq<char>, conv: spec_fn(RawModel) -> Result<M, ErrorSpec>) -> Result<Option<M>, ErrorSpec> {
    match key_index(m.entries, key, 0) {
        None => Ok(None),
        Some(i) => match conv(m.entries[i].1) {
            Ok(x) => Ok(Some(x)),
            Err(e) => Err(conversion_error(key, e, m.location)),
        },
    }
}

/// Reads the field `key` of `m` with `conv`, as `field` describes.
pub fn get_field<T: View, F: Fn(&RawValue) -> Result<T, ParserError>>(
    m: &RawValueMap,
    key: &str,
    conv: F,
    Ghost(spec): Ghost<spec_fn(RawModel) -> Result<T::V, ErrorSpec>>,
) -> (r: Result<T, ParserError>)
    requires
        forall|v: &RawValue| #[trigger] conv.requires((v,)),
        forall|v: &RawValue, out: Result<T, ParserError>| #[trigger] conv.ensures((v,), out) ==> agrees(out, spec(v@)),
    ensures
        agrees(r, field(m@, key@, spec)),
{
    match m.lookup(key) {
        None => {
            let message = concat(key, " not found in map");
            Err(ParserError::new(message.as_str(), &m.location))
        },
        Some(v) => match conv(v) {
            Ok(t) => Ok(t),
            Err(e) => {
                let k = key.to_owned();
                Err(conversion_failure(&k, e, &m.location))
            },
        },
    }
}

/// Reads the field `key` of `m` with `conv` if it is there, as
/// `optional_field` describes.
pub fn get_optional_field<T: View, F: Fn(&RawValue) -> Result<T, ParserError>>(
    m: &RawValueMap,
    key: &str,
    conv: F,
    Ghost(spec): Ghost<spec_fn(RawModel) -> Result<T::V, ErrorSpec>>,
) -> (r: Result<Option<T>, ParserError>)
    requires
        forall|v: &RawValue| #[trigger] conv.requires((v,)),
        forall|v: &RawValue, out: Result<T, ParserError>| #[trigger] conv.ensures((v,), out) ==> agrees(out, spec(v@)),
    ensures
        agrees_opt(r, optional_field(m@, key@, spec)),
{
    match m.lookup(key) {
        None => Ok(None),
        Some(v) => match conv(v) {
            Ok(t) => Ok(Some(t)),
            Err(e) => {
                let k = key.to_owned();
                Err(conversion_failure(&k, e, &m.location))
            },
        },
    }
}

// ----- textures -----

/// A texture: a constant value, or a checkerboard of two values whose
/// squares have side `scale` (1 when absent). Numbers are kept as written.
pub enum TextureDesc<T, S> {
    Constant(T),
    Checkerboard { a: T, b: T, scale: Option<S> },
}

/// The text of an optional number.
pub open spec fn opt_text(o: Option<String>) -> Option<Seq<char>> {
    match o {
        Some(s) => Some(s@),
        None => None,
    }
}

impl<T: View> View for TextureDesc<T, String> {
    type V = TextureDesc<T::V, Seq<char>>;

    open spec fn view(&self) -> TextureDesc<T::V, Seq<char>> {
        match self {
            TextureDesc::Constant(t) => TextureDesc::Constant(t@),
            TextureDesc::Checkerboard { a, b, scale } => TextureDesc::Checkerboard { a: a@, b: b@, scale: opt_text(*scale) },
        }
    }
}

/// A texture whose values `conv` reads: a value that `conv` accepts is a
/// constant texture; otherwise a `Checkerboard` typed map is expected.
pub open spec fn texture_of<M>(v: RawModel, conv: spec_fn(RawModel) -> Result<M, ErrorSpec>) -> Result<TextureDesc<M, Seq<char>>, ErrorSpec> {
    match conv(v) {
        Ok(t) => Ok(TextureDesc::Constant(t)),
        Err(_) => match v {
            RawModel::TypedMap(name, m, _) => if name == "Checkerboard"@ {
                match field(m, "a"@, conv) {
                    Err(e) => Err(e),
                    Ok(a) => match field(m, "b"@, conv) {
                        Err(e) => Err(e),
                        Ok(b) => match optional_field(m, "scale"@, as_number()) {
                            Err(e) => Err(e),
                            Ok(scale) => Ok(TextureDesc::Checkerboard { a, b, scale }),
                        },
                    },
                }
            } else {
                Err(error_at("Unknown material type: "@ + name, m.location))
            },
            _ => Err(cannot_get("Color"@, v)),
        },
    }
}

pub open spec fn as_color_texture() -> spec_fn(RawModel) -> Result<TextureDesc<(Seq<char>, Seq<char>, Seq<char>), Seq<char>>, ErrorSpec> {
    |v: RawModel| texture_of(v, as_color())
}

pub open spec fn as_number_texture() -> spec_fn(RawModel) -> Result<TextureDesc<Seq<char>, Seq<char>>, ErrorSpec> {
    |v: RawModel| texture_of(v, as_number())
}

/// A texture of colors.
pub fn color_texture_value(v: &RawValue) -> (r: Result<TextureDesc<(String, String, String), String>, ParserError>)
    ensures
        agrees(r, texture_of(v@, as_color())),
{
    match color_value(v) {
        Ok(t) => Ok(TextureDesc::Constant(t)),
        Err(_) => {
            proof {
                lemma_raw_model(*v);
            }
            match v {
                RawValue::TypedMap(t) => {
                    let m = t.map();
                    if text_is(t.name(), "Checkerboard") {
                        let a = get_field(m, "a", color_value, Ghost(as_color()))?;
                        let b = get_field(m, "b", color_value, Ghost(as_color()))?;
                        let scale = get_optional_field(m, "scale", number_value, Ghost(as_number()))?;
                        Ok(TextureDesc::Checkerboard { a, b, scale })
                    } else {
                        let message = concat("Unknown material type: ", t.name().as_str());
                        Err(ParserError::new(message.as_str(), t.location()))
                    }
                },
                _ => Err(wrong_kind("Color", v)),
            }
        },
    }
}

/// A texture of numbers.
pub fn number_texture_value(v: &RawValue) -> (r: Result<TextureDesc<String, String>, ParserError>)
    ensures
        agrees(r, texture_of(v@, as_number())),
{
    match number_value(v) {
        Ok(t) => Ok(TextureDesc::Constant(t)),
        Err(_) => {
            proof {
                lemma_raw_model(*v);
            }
            match v {
                RawValue::TypedMap(t) => {
                    let m = t.map();
                    if text_is(t.name(), "Checkerboard") {
                        let a = get_field(m, "a", number_value, Ghost(as_number()))?;
                        let b = get_field(m, "b", number_value, Ghost(as_number()))?;
                        let scale = get_optional_field(m, "scale", number_value, Ghost(as_number()))?;
                        Ok(TextureDesc::Checkerboard { a, b, scale })
                    } else {
                        let message = concat("Unknown material type: ", t.name().as_str());
                        Err(ParserError::new(message.as_str(), t.location()))
                    }
                },
                _ => Err(wrong_kind("Color", v)),
            }
        },
    }
}

// ----- materials -----

/// A material as described in a scene file. Numbers are kept as written.
pub enum MaterialDesc<S> {
    Matte { reflectance: TextureDesc<(S, S, S), S>, sigma: TextureDesc<S, S> },
    Glass { reflectance: TextureDesc<(S, S, S), S>, transmittance: TextureDesc<(S, S, S), S>, eta: S },
    Plastic { diffuse: TextureDesc<(S, S, S), S>, specular: TextureDesc<(S, S, S), S>, roughness: TextureDesc<S, S> },
    Metal { eta: TextureDesc<(S, S, S), S>, k: TextureDesc<(S, S, S), S> },
}

impl View for MaterialDesc<String> {
    type V = MaterialDesc<Seq<char>>;

    open spec fn view(&self) -> MaterialDesc<Seq<char>> {
        match self {
            MaterialDesc::Matte { reflectance, sigma } => MaterialDesc::Matte { reflectance: reflectance@, sigma: sigma@ },
            MaterialDesc::Glass { reflectance, transmittance, eta } => MaterialDesc::Glass {
                reflectance: reflectance@,
                transmittance: transmittance@,
                eta: eta@,
            },
            MaterialDesc::Plastic { diffuse, specular, roughness } => MaterialDesc::Plastic {
                diffuse: diffuse@,
                specular: specular@,
                roughness: roughness@,
            },
            MaterialDesc::Metal { eta, k } => MaterialDesc::Metal { eta: eta@, k: k@ },
        }
    }
}

/// A material: a typed map whose name picks the kind of material.
pub open spec fn material_of(v: RawModel) -> Result<MaterialDesc<Seq<char>>, ErrorSpec> {
    match v {
        RawModel::TypedMap(name, m, _) => if name == "Matte"@ {
            match field(m, "reflectance"@, as_color_texture()) {
                Err(e) => Err(e),
                Ok(reflectance) => match field(m, "sigma"@, as_number_texture()) {
                    Err(e) => Err(e),
                    Ok(sigma) => Ok(MaterialDesc::Matte { reflectance, sigma }),
                },
            }
        } else if name == "Glass"@ {
            match field(m, "reflectance"@, as_color_texture()) {
                Err(e) => Err(e),
                Ok(reflectance) => match field(m, "transmittance"@, as_color_texture()) {
                    Err(e) => Err(e),
                    Ok(transmittance) => match field(m, "eta"@, as_number()) {
                        Err(e) => Err(e),
                        Ok(eta) => Ok(MaterialDesc::Glass { reflectance, transmittance, eta }),
                    },
                },
            }
        } else if name == "Plastic"@ {
            match field(m, "diffuse"@, as_color_texture()) {
                Err(e) => Err(e),
                Ok(diffuse) => match field(m, "specular"@, as_color_texture()) {
                    Err(e) => Err(e),
                    Ok(specular) => match field(m, "roughness"@, as_number_texture()) {
                        Err(e) => Err(e),
                        Ok(roughness) => Ok(MaterialDesc::Plastic { diffuse, specular, roughness }),
                    },
                },
            }
        } else if name == "Metal"@ {
            match field(m, "eta"@, as_color_texture()) {
                Err(e) => Err(e),
                Ok(eta) => match field(m, "k"@, as_color_texture()) {
                    Err(e) => Err(e),
                    Ok(k) => Ok(MaterialDesc::Metal { eta, k }),
                },
            }
        } else {
            Err(error_at("Unknown material type: "@ + name, m.location))
        },
        _ => Err(cannot_get("Material"@, v)),
    }
}

pub open spec fn as_material() -> spec_fn(RawModel) -> Result<MaterialDesc<Seq<char>>, ErrorSpec> {
    |v: RawModel| material_of(v)
}

/// Reads a material.
pub fn material_value(v: &RawValue) -> (r: Result<MaterialDesc<String>, ParserError>)
    ensures
        agrees(r, material_of(v@)),
{
    proof {
        lemma_raw_model(*v);
    }
    match v {
        RawValue::TypedMap(t) => {
            let m = t.map();
            let name = t.name();
            if text_is(name, "Matte") {
                let reflectance = get_field(m, "reflectance", color_texture_value, Ghost(as_color_texture()))?;
                let sigma = get_field(m, "sigma", number_texture_value, Ghost(as_number_texture()))?;
                Ok(MaterialDesc::Matte { reflectance, sigma })
            } else if text_is(name, "Glass") {
                let reflectance = get_field(m, "reflectance", color_texture_value, Ghost(as_color_texture()))?;
                let transmittance = get_field(m, "transmittance", color_texture_value, Ghost(as_color_texture()))?;
                let eta = get_field(m, "eta", number_value, Ghost(as_number()))?;
                Ok(MaterialDesc::Glass { reflectance, transmittance, eta })
            } else if text_is(name, "Plastic") {
                let diffuse = get_field(m, "diffuse", color_texture_value, Ghost(as_color_texture()))?;
                let specular = get_field(m, "specular", color_texture_value, Ghost(as_color_texture()))?;
                let roughness = get_field(m, "roughness", number_texture_value, Ghost(as_number_texture()))?;
                Ok(MaterialDesc::Plastic { diffuse, specular, roughness })
            } else if text_is(name, "Metal") {
                let eta = get_field(m, "eta", color_texture_value, Ghost(as_color_texture()))?;
                let k = get_field(m, "k", color_texture_value, Ghost(as_color_texture()))?;
                Ok(MaterialDesc::Metal { eta, k })
            } else {
                let message = concat("Unknown material type: ", name.as_str());
                Err(ParserError::new(message.as_str(), t.location()))
            }
        },
        _ => Err(wrong_kind("Material", v)),
    }
}

// ----- shapes -----

/// A shape as described in a scene file. Numbers are kept as written; an
/// absent optional number stands for 0. A triangle keeps where its map
/// starts, for reporting it when its corners turn out to lie on a line.
pub enum ShapeDesc<S> {
    Sphere { origin: (S, S, S), radius: S },
    Triangle { v0: (S, S, S), v1: (S, S, S), v2: (S, S, S), location: Location },
    Disk { origin: (S, S, S), rotate_x: Option<S>, rotate_y: Option<S>, radius: S, inner_radius: Option<S> },
}

impl View for ShapeDesc<String> {
    type V = ShapeDesc<Seq<char>>;

    open spec fn view(&self) -> ShapeDesc<Seq<char>> {
        match self {
            ShapeDesc::Sphere { origin, radius } => ShapeDesc::Sphere { origin: origin@, radius: radius@ },
            ShapeDesc::Triangle { v0, v1, v2, location } => ShapeDesc::Triangle { v0: v0@, v1: v1@, v2: v2@, location: *location },
            ShapeDesc::Disk { origin, rotate_x, rotate_y, radius, inner_radius } => ShapeDesc::Disk {
                origin: origin@,
                rotate_x: opt_text(*rotate_x),
                rotate_y: opt_text(*rotate_y),
                radius: radius@,
                inner_radius: opt_text(*inner_radius),
            },
        }
    }
}

/// A shape: a typed map whose name picks the kind of shape.
pub open spec fn shape_of(v: RawModel) -> Result<ShapeDesc<Seq<char>>, ErrorSpec> {
    match v {
        RawModel::TypedMap(name, m, _) => if name == "Sphere"@ {
            match field(m, "origin"@, as_point()) {
                Err(e) => Err(e),
                Ok(origin) => match field(m, "radius"@, as_number()) {
                    Err(e) => Err(e),
                    Ok(radius) => Ok(ShapeDesc::Sphere { origin, radius }),
                },
            }
        } else if name == "Triangle"@ {
            match field(m, "v0"@, as_point()) {
                Err(e) => Err(e),
                Ok(v0) => match field(m, "v1"@, as_point()) {
                    Err(e) => Err(e),
                    Ok(v1) => match field(m, "v2"@, as_point()) {
                        Err(e) => Err(e),
                        Ok(v2) => Ok(ShapeDesc::Triangle { v0, v1, v2, location: m.location }),
                    },
                },
            }
        } else if name == "Disk"@ {
            match field(m, "origin"@, as_point()) {
                Err(e) => Err(e),
                Ok(origin) => match optional_field(m, "rotate_x"@, as_number()) {
                    Err(e) => Err(e),
                    Ok(rotate_x) => match optional_field(m, "rotate_y"@, as_number()) {
                        Err(e) => Err(e),
                        Ok(rotate_y) => match field(m, "radius"@, as_number()) {
                            Err(e) => Err(e),
                            Ok(radius) => match optional_field(m, "inner_radius"@, as_number()) {
                                Err(e) => Err(e),
                                Ok(inner_radius) => Ok(ShapeDesc::Disk { origin, rotate_x, rotate_y, radius, inner_radius }),
                            },
                        },
                    },
                },
            }
        } else {
            Err(ErrorSpec { message: "Unknown shape type: "@ + name, location: None })
        },
        _ => Err(cannot_get("Shape"@, v)),
    }
}

pub open spec fn as_shape() -> spec_fn(RawModel) -> Result<ShapeDesc<Seq<char>>, ErrorSpec> {
    |v: RawModel| shape_of(v)
}

/// Reads a shape.
pub fn shape_value(v: &RawValue) -> (r: Result<ShapeDesc<String>, ParserError>)
    ensures
        agrees(r, shape_of(v@)),
{
    proof {
        lemma_raw_model(*v);
    }
    match v {
        RawValue::TypedMap(t) => {
            let m = t.map();
            let name = t.name();
            if text_is(name, "Sphere") {
                let origin = get_field(m, "origin", point_value, Ghost(as_point()))?;
                let radius = get_field(m, "radius", number_value, Ghost(as_number()))?;
                Ok(ShapeDesc::Sphere { origin, radius })
            } else if text_is(name, "Triangle") {
                let v0 = get_field(m, "v0", point_value, Ghost(as_point()))?;
                let v1 = get_field(m, "v1", point_value, Ghost(as_point()))?;
                let v2 = get_field(m, "v2", point_value, Ghost(as_point()))?;
                Ok(ShapeDesc::Triangle { v0, v1, v2, location: *t.location() })
            } else if text_is(name, "Disk") {
                let origin = get_field(m, "origin", point_value, Ghost(as_point()))?;
                let rotate_x = get_optional_field(m, "rotate_x", number_value, Ghost(as_number()))?;
                let rotate_y = get_optional_field(m, "rotate_y", number_value, Ghost(as_number()))?;
                let radius = get_field(m, "radius", number_value, Ghost(as_number()))?;
                let inner_radius = get_optional_field(m, "inner_radius", number_value, Ghost(as_number()))?;
                Ok(ShapeDesc::Disk { origin, rotate_x, rotate_y, radius, inner_radius })
            } else {
                let message = concat("Unknown shape type: ", name.as_str());
                Err(ParserError::without_location(message.as_str()))
            }
        },
        _ => Err(wrong_kind("Shape", v)),
    }
}

// ----- lights -----

/// A light as described in a scene file. Numbers are kept as written.
pub enum LightDesc<S> {
    Point { origin: (S, S, S), intensity: (S, S, S) },
    Distant { direction: (S, S, S), intensity: (S, S, S) },
    Infinite { intensity: (S, S, S) },
}

impl View for LightDesc<String> {
    type V = LightDesc<Seq<char>>;

    open spec fn view(&self) -> LightDesc<Seq<char>> {
        match self {
            LightDesc::Point { origin, intensity } => LightDesc::Point { origin: origin@, intensity: intensity@ },
            LightDesc::Distant { direction, intensity } => LightDesc::Distant { direction: direction@, intensity: intensity@ },
            LightDesc::Infinite { intensity } => LightDesc::Infinite { intensity: intensity@ },
        }
    }
}

/// A light: a typed map whose name picks the kind of light.
pub open spec fn light_of(v: RawModel) -> Result<LightDesc<Seq<char>>, ErrorSpec> {
    match v {
        RawModel::TypedMap(name, m, _) => if name == "Point"@ {
            match field(m, "origin"@, as_point()) {
                Err(e) => Err(e),
                Ok(origin) => match field(m, "intensity"@, as_color()) {
                    Err(e) => Err(e),
                    Ok(intensity) => Ok(LightDesc::Point { origin, intensity }),
                },
            }
        } else if name == "Distant"@ {
            match field(m, "direction"@, as_vector()) {
                Err(e) => Err(e),
                Ok(direction) => match field(m, "intensity"@, as_color()) {
                    Err(e) => Err(e),
                    Ok(intensity) => Ok(LightDesc::Distant { direction, intensity }),
                },
            }
        } else if name == "Infinite"@ {
            match field(m, "intensity"@, as_color()) {
                Err(e) => Err(e),
                Ok(intensity) => Ok(LightDesc::Infinite { intensity }),
            }
        } else {
            Err(ErrorSpec { message: "Unknown light type: "@ + name, location: None })
        },
        _ => Err(cannot_get("Light"@, v)),
    }
}

pub open spec fn as_light() -> spec_fn(RawModel) -> Result<LightDesc<Seq<char>>, ErrorSpec> {
    |v: RawModel| light_of(v)
}

/// Reads a light.
pub fn light_value(v: &RawValue) -> (r: Result<LightDesc<String>, ParserError>)
    ensures
        agrees(r, light_of(v@)),
{
    proof {
        lemma_raw_model(*v);
    }
    match v {
        RawValue::TypedMap(t) => {
            let m = t.map();
            let name = t.name();
            if text_is(name, "Point") {
                let origin = get_field(m, "origin", point_value, Ghost(as_point()))?;
                let intensity = get_field(m, "intensity", color_value, Ghost(as_color()))?;
                Ok(LightDesc::Point { origin, intensity })
            } else if text_is(name, "Distant") {
                let direction = get_field(m, "direction", vector_value, Ghost(as_vector()))?;
                let intensity = get_field(m, "intensity", color_value, Ghost(as_color()))?;
                Ok(LightDesc::Distant { direction, intensity })
            } else if text_is(name, "Infinite") {
                let intensity = get_field(m, "intensity", color_value, Ghost(as_color()))?;
                Ok(LightDesc::Infinite { intensity })
            } else {
                let message = concat("Unknown light type: ", name.as_str());
                Err(ParserError::without_location(message.as_str()))
            }
        },
        _ => Err(wrong_kind("Light", v)),
    }
}

// ----- film and camera -----

/// Film dimensions as written.
pub struct FilmDesc<S> {
    pub width: S,
    pub height: S,
}

impl View for FilmDesc<String> {
    type V = FilmDesc<Seq<char>>;

    open spec fn view(&self) -> FilmDesc<Seq<char>> {
        FilmDesc { width: self.width@, height: self.height@ }
    }
}

/// Film: a plain map with a width and a height.
pub open spec fn film_of(v: RawModel) -> Result<FilmDesc<Seq<char>>, ErrorSpec> {
    match v {
        RawModel::Mapping(m) => match field(m, "width"@, as_number()) {
            Err(e) => Err(e),
            Ok(width) => match field(m, "height"@, as_number()) {
                Err(e) => Err(e),
                Ok(height) => Ok(FilmDesc { width, height }),
            },
        },
        _ => Err(cannot_get("Film"@, v)),
    }
}

pub open spec fn as_film() -> spec_fn(RawModel) -> Result<FilmDesc<Seq<char>>, ErrorSpec> {
    |v: RawModel| film_of(v)
}

/// Reads film dimensions.
pub fn film_value(v: &RawValue) -> (r: Result<FilmDesc<String>, ParserError>)
    ensures
        agrees(r, film_of(v@)),
{
    proof {
        lemma_raw_model(*v);
    }
    match v {
        RawValue::Mapping(m) => {
            let width = get_field(m, "width", number_value, Ghost(as_number()))?;
            let height = get_field(m, "height", number_value, Ghost(as_number()))?;
            Ok(FilmDesc { width, height })
        },
        _ => Err(wrong_kind("Film", v)),
    }
}

/// A camera as described in a scene file. `fov` is present exactly for a
/// perspective camera; an absent lens radius stands for 0 and an absent
/// focal distance for 1e6. Numbers are kept as written.
pub struct CameraDesc<S> {
    pub camera_type: CameraType,
    pub film: FilmDesc<S>,
    pub origin: (S, S, S),
    pub target: (S, S, S),
    pub up: (S, S, S),
    pub fov: Option<S>,
    pub lens_radius: Option<S>,
    pub focal_distance: Option<S>,
}

impl View for CameraDesc<String> {
    type V = CameraDesc<Seq<char>>;

    open spec fn view(&self) -> CameraDesc<Seq<char>> {
        CameraDesc {
            camera_type: self.camera_type,
            film: self.film@,
            origin: self.origin@,
            target: self.target@,
            up: self.up@,
            fov: opt_text(self.fov),
            lens_radius: opt_text(self.lens_radius),
            focal_distance: opt_text(self.focal_distance),
        }
    }
}

/// The camera of a typed map named `name` whose shared fields were read.
pub open spec fn camera_kind(
    name: Seq<char>,
    m: MapModel,
    film: FilmDesc<Seq<char>>,
    origin: (Seq<char>, Seq<char>, Seq<char>),
    target: (Seq<char>, Seq<char>, Seq<char>),
    up: (Seq<char>, Seq<char>, Seq<char>),
    lens_radius: Option<Seq<char>>,
    focal_distance: Option<Seq<char>>,
) -> Result<CameraDesc<Seq<char>>, ErrorSpec> {
    if name == "Perspective"@ {
        match field(m, "fov"@, as_number()) {
            Err(e) => Err(e),
            Ok(fov) => Ok(CameraDesc { camera_type: CameraType::Perspective, film, origin, target, up, fov: Some(fov), lens_radius, focal_distance }),
        }
    } else if name == "Orthographic"@ {
        Ok(CameraDesc { camera_type: CameraType::Orthographic, film, origin, target, up, fov: None, lens_radius, focal_distance })
    } else {
        Err(ErrorSpec { message: "Unknown camera type: "@ + name, location: None })
    }
}

/// A camera: a typed map with the film, position and lens, whose name picks
/// the projection. The shared fields are read before the name is looked at.
pub open spec fn camera_of(v: RawModel) -> Result<CameraDesc<Seq<char>>, ErrorSpec> {
    match v {
        RawModel::TypedMap(name, m, _) => match field(m, "film"@, as_film()) {
            Err(e) => Err(e),
            Ok(film) => match field(m, "origin"@, as_point()) {
                Err(e) => Err(e),
                Ok(origin) => match field(m, "target"@, as_point()) {
                    Err(e) => Err(e),
                    Ok(target) => match field(m, "up"@, as_vector()) {
                        Err(e) => Err(e),
                        Ok(up) => match optional_field(m, "lens_radius"@, as_number()) {
                            Err(e) => Err(e),
                            Ok(lens_radius) => match optional_field(m, "focal_distance"@, as_number()) {
                                Err(e) => Err(e),
                                Ok(focal_distance) => camera_kind(name, m, film, origin, target, up, lens_radius, focal_distance),
                            },
                        },
                    },
                },
            },
        },
        _ => Err(cannot_get("Camera"@, v)),
    }
}

pub open spec fn as_camera() -> spec_fn(RawModel) -> Result<CameraDesc<Seq<char>>, ErrorSpec> {
    |v: RawModel| camera_of(v)
}

/// Reads a camera.
pub fn camera_value(v: &RawValue) -> (r: Result<CameraDesc<String>, ParserError>)
    ensures
        agrees(r, camera_of(v@)),
{
    proof {
        lemma_raw_model(*v);
    }
    match v {
        RawValue::TypedMap(t) => {
            let m = t.map();
            let name = t.name();
            let film = get_field(m, "film", film_value, Ghost(as_film()))?;
            let origin = get_field(m, "origin", point_value, Ghost(as_point()))?;
            let target = get_field(m, "target", point_value, Ghost(as_point()))?;
            let up = get_field(m, "up", vector_value, Ghost(as_vector()))?;
            let lens_radius = get_optional_field(m, "lens_radius", number_value, Ghost(as_number()))?;
            let focal_distance = get_optional_field(m, "focal_distance", number_value, Ghost(as_number()))?;
            if text_is(name, "Perspective") {
                let fov = get_field(m, "fov", number_value, Ghost(as_number()))?;
                Ok(CameraDesc { camera_type: CameraType::Perspective, film, origin, target, up, fov: Some(fov), lens_radius, focal_distance })
            } else if text_is(name, "Orthographic") {
                Ok(CameraDesc { camera_type: CameraType::Orthographic, film, origin, target, up, fov: None, lens_radius, focal_distance })
            } else {
                let message = concat("Unknown camera type: ", name.as_str());
                Err(ParserError::without_location(message.as_str()))
            }
        },
        _ => Err(wrong_kind("Camera", v)),
    }
}

// ----- lists and named collections -----

/// The first `n` items converted by `conv`; the first item that fails gives
/// the error.
pub open spec fn items_of<M>(items: Seq<RawModel>, conv: spec_fn(RawModel) -> Result<M, ErrorSpec>, n: int) -> Result<Seq<M>, ErrorSpec>
    decreases n,
{
    if n <= 0 {
        Ok(Seq::empty())
    } else {
        match items_of(items, conv, n - 1) {
            Err(e) => Err(e),
            Ok(done) => match conv(items[n - 1]) {
                Err(e) => Err(e),
                Ok(x) => Ok(done.push(x)),
            },
        }
    }
}

/// An array whose items `conv` converts, in order.
pub open spec fn list_of<M>(v: RawModel, conv: spec_fn(RawModel) -> Result<M, ErrorSpec>) -> Result<Seq<M>, ErrorSpec> {
    match v {
        RawModel::Array(items) => items_of(items, conv, items.len() as int),
        _ => Err(cannot_get("Array"@, v)),
    }
}

/// The first `n` entries with their values converted by `conv`; the first
/// entry that fails gives the error.
pub open spec fn entries_of<M>(entries: Seq<(Seq<char>, RawModel)>, conv: spec_fn(RawModel) -> Result<M, ErrorSpec>, n: int) -> Result<Seq<(Seq<char>, M)>, ErrorSpec>
    decreases n,
{
    if n <= 0 {
        Ok(Seq::empty())
    } else {
        match entries_of(entries, conv, n - 1) {
            Err(e) => Err(e),
            Ok(done) => match conv(entries[n - 1].1) {
                Err(e) => Err(e),
                Ok(x) => Ok(done.push((entries[n - 1].0, x))),
            },
        }
    }
}

/// A plain map whose values `conv` converts, keeping each name, in the
/// map's order.
pub open spec fn named_of<M>(v: RawModel, conv: spec_fn(RawModel) -> Result<M, ErrorSpec>) -> Result<Seq<(Seq<char>, M)>, ErrorSpec> {
    match v {
        RawModel::Mapping(m) => entries_of(m.entries, conv, m.entries.len() as int),
        _ => Err(cannot_get("Map"@, v)),
    }
}

/// Once a prefix fails, every longer prefix fails with the same error.
proof fn lemma_items_error_stays<M>(items: Seq<RawModel>, conv: spec_fn(RawModel) -> Result<M, ErrorSpec>, k: int, n: int)
    requires
        k <= n,
        items_of(items, conv, k) is Err,
    ensures
        items_of(items, conv, n) == items_of(items, conv, k),
    decreases n - k,
{
    if n > k {
        lemma_items_error_stays(items, conv, k, n - 1);
    }
}

/// Once a prefix fails, every longer prefix fails with the same error.
proof fn lemma_entries_error_stays<M>(entries: Seq<(Seq<char>, RawModel)>, conv: spec_fn(RawModel) -> Result<M, ErrorSpec>, k: int, n: int)
    requires
        k <= n,
        entries_of(entries, conv, k) is Err,
    ensures
        entries_of(entries, conv, n) == entries_of(entries, conv, k),
    decreases n - k,
{
    if n > k {
        lemma_entries_error_stays(entries, conv, k, n - 1);
    }
}

/// Whether a list of results agrees with a list of models, item by item.
pub open spec fn agrees_list<T: View>(r: Result<Vec<T>, ParserError>, s: Result<Seq<T::V>, ErrorSpec>) -> bool {
    match (r, s) {
        (Ok(a), Ok(b)) => a@.len() == b.len() && forall|k: int| 0 <= k < b.len() ==> #[trigger] a@[k]@ == b[k],
        (Err(e), Err(f)) => e@ == f,
        _ => false,
    }
}

/// Whether a list of named results agrees with a list of named models.
pub open spec fn agrees_named<T: View>(r: Result<Vec<(String, T)>, ParserError>, s: Result<Seq<(Seq<char>, T::V)>, ErrorSpec>) -> bool {
    match (r, s) {
        (Ok(a), Ok(b)) => a@.len() == b.len() && forall|k: int| 0 <= k < b.len() ==> (#[trigger] a@[k]).0@ == b[k].0 && a@[k].1@ == b[k].1,
        (Err(e), Err(f)) => e@ == f,
        _ => false,
    }
}

/// Reads an array whose items `conv` converts, as `list_of` describes.
pub fn list_value<T: View, F: Fn(&RawValue) -> Result<T, ParserError>>(
    v: &RawValue,
    conv: F,
    Ghost(spec): Ghost<spec_fn(RawModel) -> Result<T::V, ErrorSpec>>,
) -> (r: Result<Vec<T>, ParserError>)
    requires
        forall|x: &RawValue| #[trigger] conv.requires((x,)),
        forall|x: &RawValue, out: Result<T, ParserError>| #[trigger] conv.ensures((x,), out) ==> agrees(out, spec(x@)),
    ensures
        agrees_list(r, list_of(v@, spec)),
{
    proof {
        lemma_raw_model(*v);
    }
    match v {
        RawValue::Array(a) => {
            proof {
                lemma_array_items(*a);
            }
            let ghost items = a@;
            let mut out: Vec<T> = Vec::new();
            let mut k: usize = 0;
            while k < a.array.len()
                invariant
                    k <= a.array@.len(),
                    items == a@,
                    v@ == RawModel::Array(items),
                    items.len() == a.array@.len(),
                    forall|m: int| 0 <= m < a.array@.len() ==> #[trigger] items[m] == a.array@[m]@,
                    forall|x: &RawValue| #[trigger] conv.requires((x,)),
                    forall|x: &RawValue, o: Result<T, ParserError>| #[trigger] conv.ensures((x,), o) ==> agrees(o, spec(x@)),
                    items_of(items, spec, k as int) matches Ok(done) && out@.len() == done.len()
                        && forall|m: int| 0 <= m < done.len() ==> #[trigger] out@[m]@ == done[m],
                decreases a.array@.len() - k,
            {
                match conv(&a.array[k]) {
                    Ok(t) => {
                        out.push(t);
                        k += 1;
                    },
                    Err(e) => {
                        proof {
                            lemma_items_error_stays(items, spec, k + 1, items.len() as int);
                        }
                        return Err(e);
                    },
                }
            }
            Ok(out)
        },
        _ => Err(wrong_kind("Array", v)),
    }
}

/// Reads a plain map whose values `conv` converts, as `named_of` describes.
pub fn named_value<T: View, F: Fn(&RawValue) -> Result<T, ParserError>>(
    v: &RawValue,
    conv: F,
    Ghost(spec): Ghost<spec_fn(RawModel) -> Result<T::V, ErrorSpec>>,
) -> (r: Result<Vec<(String, T)>, ParserError>)
    requires
        forall|x: &RawValue| #[trigger] conv.requires((x,)),
        forall|x: &RawValue, out: Result<T, ParserError>| #[trigger] conv.ensures((x,), out) ==> agrees(out, spec(x@)),
    ensures
        agrees_named(r, named_of(v@, spec)),
{
    proof {
        lemma_raw_model(*v);
    }
    match v {
        RawValue::Mapping(m) => {
            proof {
                lemma_map_entries(*m);
            }
            let ghost entries = m@.entries;
            let mut out: Vec<(String, T)> = Vec::new();
            let mut k: usize = 0;
            while k < m.map.len()
                invariant
                    k <= m.map@.len(),
                    entries == m@.entries,
                    v@ == RawModel::Mapping(m@),
                    entries.len() == m.map@.len(),
                    forall|j: int| 0 <= j < m.map@.len() ==> #[trigger] entries[j] == (m.map@[j].0@, m.map@[j].1@),
                    forall|x: &RawValue| #[trigger] conv.requires((x,)),
                    forall|x: &RawValue, o: Result<T, ParserError>| #[trigger] conv.ensures((x,), o) ==> agrees(o, spec(x@)),
                    entries_of(entries, spec, k as int) matches Ok(done) && out@.len() == done.len()
                        && forall|j: int| 0 <= j < done.len() ==> (#[trigger] out@[j]).0@ == done[j].0 && out@[j].1@ == done[j].1,
                decreases m.map@.len() - k,
            {
                match conv(&m.map[k].1) {
                    Ok(t) => {
                        out.push((m.map[k].0.clone(), t));
                        k += 1;
                    },
                    Err(e) => {
                        proof {
                            lemma_entries_error_stays(entries, spec, k + 1, entries.len() as int);
                        }
                        return Err(e);
                    },
                }
            }
            Ok(out)
        },
        _ => Err(wrong_kind("Map", v)),
    }
}

// ----- primitives -----

/// A typed map's name and entries, as a primitive definition is read.
pub open spec fn typed_of(v: RawModel) -> Result<(Seq<char>, MapModel), ErrorSpec> {
    match v {
        RawModel::TypedMap(name, m, _) => Ok((name, m)),
        _ => Err(cannot_get("TypedRawValueMap"@, v)),
    }
}

pub open spec fn as_typed() -> spec_fn(RawModel) -> Result<(Seq<char>, MapModel), ErrorSpec> {
    |v: RawModel| typed_of(v)
}

/// Whether a list of typed maps agrees with a list of their models.
pub open spec fn agrees_typed(r: Result<Vec<&TypedRawValueMap>, ParserError>, s: Result<Seq<(Seq<char>, MapModel)>, ErrorSpec>) -> bool {
    match (r, s) {
        (Ok(a), Ok(b)) => a@.map_values(|d: &TypedRawValueMap| d@) == b,
        (Err(e), Err(f)) => e@ == f,
        _ => false,
    }
}

/// Reads an array of typed maps, as `list_of` with `typed_of` describes.
pub fn typed_list_value<'a>(v: &'a RawValue) -> (r: Result<Vec<&'a TypedRawValueMap>, ParserError>)
    ensures
        agrees_typed(r, list_of(v@, as_typed())),
{
    proof {
        lemma_raw_model(*v);
    }
    match v {
        RawValue::Array(a) => {
            proof {
                lemma_array_items(*a);
            }
            let ghost items = a@;
            let mut out: Vec<&'a TypedRawValueMap> = Vec::new();
            let mut k: usize = 0;
            assert(out@.map_values(|d: &TypedRawValueMap| d@) =~= Seq::<(Seq<char>, MapModel)>::empty());
            while k < a.array.len()
                invariant
                    k <= a.array@.len(),
                    items == a@,
                    v@ == RawModel::Array(items),
                    items.len() == a.array@.len(),
                    forall|m: int| 0 <= m < a.array@.len() ==> #[trigger] items[m] == a.array@[m]@,
                items_of(items, as_typed(), k as int) matches Ok(done) && out@.map_values(|d: &TypedRawValueMap| d@) == done,
                decreases a.array@.len() - k,
            {
                let item = &a.array[k];
                proof {
                    lemma_raw_model(*item);
                }
                match item {
                    RawValue::TypedMap(t) => {
                        let ghost before = out@;
                        out.push(t);
                        proof {
                            assert(out@.map_values(|d: &TypedRawValueMap| d@) =~= before.map_values(|d: &TypedRawValueMap| d@).push(t@));
                        }
                        k += 1;
                    },
                    _ => {
                        let e = wrong_kind("TypedRawValueMap", item);
                        proof {
                            lemma_items_error_stays(items, as_typed(), k + 1, items.len() as int);
                        }
                        return Err(e);
                    },
                }
            }
            Ok(out)
        },
        _ => Err(wrong_kind("Array", v)),
    }
}

/// A primitive: a shape with a material, a shape that emits light, or a
/// mesh file with a material for faces that name none. Shapes and materials
/// are given by their index among the scene's named shapes and materials.
pub enum PrimitiveDesc<S> {
    Shape { shape: usize, material: usize },
    AreaLight { shape: usize, emittance: (S, S, S) },
    Mesh { file_name: S, fallback_material: usize },
}

impl View for PrimitiveDesc<String> {
    type V = PrimitiveDesc<Seq<char>>;

    open spec fn view(&self) -> PrimitiveDesc<Seq<char>> {
        match self {
            PrimitiveDesc::Shape { shape, material } => PrimitiveDesc::Shape { shape: *shape, material: *material },
            PrimitiveDesc::AreaLight { shape, emittance } => PrimitiveDesc::AreaLight { shape: *shape, emittance: emittance@ },
            PrimitiveDesc::Mesh { file_name, fallback_material } => PrimitiveDesc::Mesh {
                file_name: file_name@,
                fallback_material: *fallback_material,
            },
        }
    }
}

/// The first index at or after `k` of `name` among `names`.
pub open spec fn name_index(names: Seq<Seq<char>>, name: Seq<char>, k: int) -> Option<int>
    decreases names.len() - k,
{
    if k < 0 || k >= names.len() {
        None
    } else if names[k] == name {
        Some(k)
    } else {
        name_index(names, name, k + 1)
    }
}

/// The names of named values.
pub open spec fn names_of<M>(named: Seq<(Seq<char>, M)>) -> Seq<Seq<char>> {
    named.map_values(|p: (Seq<char>, M)| p.0)
}

/// The error for a name that names no shape or material.
pub open spec fn missing_name(what: Seq<char>, name: Seq<char>, location: Location) -> ErrorSpec {
    error_at("Cannot find "@ + what + " named '"@ + name + "'"@, location)
}

fn missing_name_error(what: &str, name: &String, location: &Location) -> (e: ParserError)
    ensures
        e@ == missing_name(what@, name@, *location),
{
    let message = concat(concat(concat(concat("Cannot find ", what).as_str(), " named '").as_str(), name.as_str()).as_str(), "'");
    ParserError::new(message.as_str(), location)
}

/// The material `name` among `materials`, or the error for a missing one.
pub open spec fn material_index(materials: Seq<Seq<char>>, name: Seq<char>, location: Location) -> Result<int, ErrorSpec> {
    match name_index(materials, name, 0) {
        Some(i) => Ok(i),
        None => Err(missing_name("material"@, name, location)),
    }
}

/// The primitive that the typed map `name { m }` defines, its shape and
/// materials looked up by name. A shape with an `emittance` is a light.
pub open spec fn primitive_of(name: Seq<char>, m: MapModel, materials: Seq<Seq<char>>, shapes: Seq<Seq<char>>) -> Result<PrimitiveDesc<Seq<char>>, ErrorSpec> {
    if name == "Shape"@ {
        match field(m, "shape"@, as_string()) {
            Err(e) => Err(e),
            Ok(shape_name) => match name_index(shapes, shape_name, 0) {
                None => Err(missing_name("shape"@, shape_name, m.location)),
                Some(s) => if key_index(m.entries, "emittance"@, 0) is None {
                    match field(m, "material"@, as_string()) {
                        Err(e) => Err(e),
                        Ok(material_name) => match material_index(materials, material_name, m.location) {
                            Err(e) => Err(e),
                            Ok(i) => Ok(PrimitiveDesc::Shape { shape: s as usize, material: i as usize }),
                        },
                    }
                } else {
                    match field(m, "emittance"@, as_color()) {
                        Err(e) => Err(e),
                        Ok(emittance) => Ok(PrimitiveDesc::AreaLight { shape: s as usize, emittance }),
                    }
                },
            },
        }
    } else if name == "Mesh"@ {
        match field(m, "file_name"@, as_string()) {
            Err(e) => Err(e),
            Ok(file_name) => match field(m, "fallback_material"@, as_string()) {
                Err(e) => Err(e),
                Ok(material_name) => match material_index(materials, material_name, m.location) {
                    Err(e) => Err(e),
                    Ok(i) => Ok(PrimitiveDesc::Mesh { file_name, fallback_material: i as usize }),
                },
            },
        }
    } else {
        Err(error_at("Unknown primitive type: "@ + name, m.location))
    }
}

/// The index of `name` among the names of `named`.
fn find_name<T>(named: &Vec<(String, T)>, name: &String) -> (r: Option<usize>)
    ensures
        r matches Some(i) ==> name_index(named@.map_values(|p: (String, T)| p.0@), name@, 0) == Some(i as int),
        r is None ==> name_index(named@.map_values(|p: (String, T)| p.0@), name@, 0) is None,
{
    let ghost names = named@.map_values(|p: (String, T)| p.0@);
    let mut k: usize = 0;
    while k < named.len()
        invariant
            k <= named@.len(),
            names == named@.map_values(|p: (String, T)| p.0@),
            name_index(names, name@, 0) == name_index(names, name@, k as int),
        decreases named@.len() - k,
    {
        if named[k].0 == *name {
            return Some(k);
        }
        k += 1;
    }
    None
}

/// Reads the primitive that `t` defines, as `primitive_of` describes.
pub fn primitive_value<M, H>(t: &TypedRawValueMap, materials: &Vec<(String, M)>, shapes: &Vec<(String, H)>) -> (r: Result<PrimitiveDesc<String>, ParserError>)
    ensures
        agrees(r, primitive_of(t@.0, t@.1, materials@.map_values(|p: (String, M)| p.0@), shapes@.map_values(|p: (String, H)| p.0@))),
{
    let m = t.map();
    let name = t.name();
    let ghost material_names = materials@.map_values(|p: (String, M)| p.0@);
    let ghost shape_names = shapes@.map_values(|p: (String, H)| p.0@);
    if text_is(name, "Shape") {
        let shape_name = get_field(m, "shape", string_value, Ghost(as_string()))?;
        match find_name(shapes, &shape_name) {
            None => Err(missing_name_error("shape", &shape_name, t.location())),
            Some(s) => {
                if !m.has("emittance") {
                    let material_name = get_field(m, "material", string_value, Ghost(as_string()))?;
                    match find_name(materials, &material_name) {
                        None => Err(missing_name_error("material", &material_name, t.location())),
                        Some(i) => Ok(PrimitiveDesc::Shape { shape: s, material: i }),
                    }
                } else {
                    let emittance = get_field(m, "emittance", color_value, Ghost(as_color()))?;
                    Ok(PrimitiveDesc::AreaLight { shape: s, emittance })
                }
            },
        }
    } else if text_is(name, "Mesh") {
        let file_name = get_field(m, "file_name", string_value, Ghost(as_string()))?;
        let material_name = get_field(m, "fallback_material", string_value, Ghost(as_string()))?;
        match find_name(materials, &material_name) {
            None => Err(missing_name_error("material", &material_name, t.location())),
            Some(i) => Ok(PrimitiveDesc::Mesh { file_name, fallback_material: i }),
        }
    } else {
        let message = concat("Unknown primitive type: ", name.as_str());
        Err(ParserError::new(message.as_str(), t.location()))
    }
}

/// The primitives that the first `n` definitions give; the first definition
/// that fails gives the error.
pub open spec fn primitives_of(defs: Seq<(Seq<char>, MapModel)>, materials: Seq<Seq<char>>, shapes: Seq<Seq<char>>, n: int) -> Result<Seq<PrimitiveDesc<Seq<char>>>, ErrorSpec>
    decreases n,
{
    if n <= 0 {
        Ok(Seq::empty())
    } else {
        match primitives_of(defs, materials, shapes, n - 1) {
            Err(e) => Err(e),
            Ok(done) => match primitive_of(defs[n - 1].0, defs[n - 1].1, materials, shapes) {
                Err(e) => Err(e),
                Ok(p) => Ok(done.push(p)),
            },
        }
    }
}

proof fn lemma_primitives_error_stays(defs: Seq<(Seq<char>, MapModel)>, materials: Seq<Seq<char>>, shapes: Seq<Seq<char>>, k: int, n: int)
    requires
        k <= n,
        primitives_of(defs, materials, shapes, k) is Err,
    ensures
        primitives_of(defs, materials, shapes, n) == primitives_of(defs, materials, shapes, k),
    decreases n - k,
{
    if n > k {
        lemma_primitives_error_stays(defs, materials, shapes, k, n - 1);
    }
}

// ----- the scene -----

/// A scene as described in a scene file, before any geometry is built.
/// Numbers are kept as written; an absent maximum depth stands for 8 and an
/// absent number of samples for 4.
pub struct SceneDesc {
    pub max_depth: Option<String>,
    pub num_samples: Option<String>,
    pub camera: CameraDesc<String>,
    pub lights: Vec<LightDesc<String>>,
    pub materials: Vec<(String, MaterialDesc<String>)>,
    pub shapes: Vec<(String, ShapeDesc<String>)>,
    pub primitives: Vec<PrimitiveDesc<String>>,
}

/// The mathematical content of a scene description.
pub struct SceneModel {
    pub max_depth: Option<Seq<char>>,
    pub num_samples: Option<Seq<char>>,
    pub camera: CameraDesc<Seq<char>>,
    pub lights: Seq<LightDesc<Seq<char>>>,
    pub materials: Seq<(Seq<char>, MaterialDesc<Seq<char>>)>,
    pub shapes: Seq<(Seq<char>, ShapeDesc<Seq<char>>)>,
    pub primitives: Seq<PrimitiveDesc<Seq<char>>>,
}

impl View for SceneDesc {
    type V = SceneModel;

    open spec fn view(&self) -> SceneModel {
        SceneModel {
            max_depth: opt_text(self.max_depth),
            num_samples: opt_text(self.num_samples),
            camera: self.camera@,
            lights: self.lights@.map_values(|l: LightDesc<String>| l@),
            materials: self.materials@.map_values(|p: (String, MaterialDesc<String>)| p@),
            shapes: self.shapes@.map_values(|p: (String, ShapeDesc<String>)| p@),
            primitives: self.primitives@.map_values(|p: PrimitiveDesc<String>| p@),
        }
    }
}

pub open spec fn as_lights() -> spec_fn(RawModel) -> Result<Seq<LightDesc<Seq<char>>>, ErrorSpec> {
    |v: RawModel| list_of(v, as_light())
}

pub open spec fn as_materials() -> spec_fn(RawModel) -> Result<Seq<(Seq<char>, MaterialDesc<Seq<char>>)>, ErrorSpec> {
    |v: RawModel| named_of(v, as_material())
}

pub open spec fn as_shapes() -> spec_fn(RawModel) -> Result<Seq<(Seq<char>, ShapeDesc<Seq<char>>)>, ErrorSpec> {
    |v: RawModel| named_of(v, as_shape())
}

pub open spec fn as_primitive_defs() -> spec_fn(RawModel) -> Result<Seq<(Seq<char>, MapModel)>, ErrorSpec> {
    |v: RawModel| list_of(v, as_typed())
}

/// The scene that the top-level map `m` describes. Its fields are read in
/// this order: `max_depth`, `num_samples`, `camera`, `lights`, `materials`,
/// `shapes`, `primitives`; the first that fails gives the error. Each
/// primitive's shape and materials are then looked up by name.
pub open spec fn scene_of(m: MapModel) -> Result<SceneModel, ErrorSpec> {
    match optional_field(m, "max_depth"@, as_number()) {
        Err(e) => Err(e),
        Ok(max_depth) => match optional_field(m, "num_samples"@, as_number()) {
            Err(e) => Err(e),
            Ok(num_samples) => match field(m, "camera"@, as_camera()) {
                Err(e) => Err(e),
                Ok(camera) => match field(m, "lights"@, as_lights()) {
                    Err(e) => Err(e),
                    Ok(lights) => match field(m, "materials"@, as_materials()) {
                        Err(e) => Err(e),
                        Ok(materials) => match field(m, "shapes"@, as_shapes()) {
                            Err(e) => Err(e),
                            Ok(shapes) => match field(m, "primitives"@, as_primitive_defs()) {
                                Err(e) => Err(e),
                                Ok(defs) => match primitives_of(defs, names_of(materials), names_of(shapes), defs.len() as int) {
                                    Err(e) => Err(e),
                                    Ok(primitives) => Ok(SceneModel { max_depth, num_samples, camera, lights, materials, shapes, primitives }),
                                },
                            },
                        },
                    },
                },
            },
        },
    }
}

/// The scene that a scene file describes: its tokens, then the map that they
/// start with, then `scene_of` that map. Tokens after the map are ignored.
pub open spec fn spec_parse_scene(s: Seq<char>) -> Result<SceneModel, ErrorSpec> {
    match spec_tokenize(s) {
        Err(e) => Err(e),
        Ok(ts) => match parse_map(ts, 0) {
            Err(e) => Err(e),
            Ok((m, _)) => scene_of(m),
        },
    }
}

/// Whether the shape and material indices of primitive `p` lie below
/// `num_shapes` and `num_materials`.
pub open spec fn refs_within(p: PrimitiveDesc<Seq<char>>, num_materials: int, num_shapes: int) -> bool {
    match p {
        PrimitiveDesc::Shape { shape, material } => shape < num_shapes && material < num_materials,
        PrimitiveDesc::AreaLight { shape, .. } => shape < num_shapes,
        PrimitiveDesc::Mesh { fallback_material, .. } => fallback_material < num_materials,
    }
}

/// Whether every primitive of a scene names one of its shapes and materials.
pub open spec fn references_resolve(scene: SceneModel) -> bool {
    forall|k: int|
        0 <= k < scene.primitives.len() ==> refs_within(
            #[trigger] scene.primitives[k],
            scene.materials.len() as int,
            scene.shapes.len() as int,
        )
}

proof fn lemma_name_index_below(names: Seq<Seq<char>>, name: Seq<char>, k: int)
    requires
        0 <= k,
    ensures
        name_index(names, name, k) matches Some(i) ==> 0 <= i < names.len(),
    decreases names.len() - k,
{
    if k < names.len() && names[k] != name {
        lemma_name_index_below(names, name, k + 1);
    }
}

proof fn lemma_primitive_refs(name: Seq<char>, m: MapModel, materials: Seq<Seq<char>>, shapes: Seq<Seq<char>>)
    ensures
        primitive_of(name, m, materials, shapes) matches Ok(p) ==> refs_within(p, materials.len() as int, shapes.len() as int),
{
    if let Ok(shape_name) = field(m, "shape"@, as_string()) {
        lemma_name_index_below(shapes, shape_name, 0);
    }
    if let Ok(material_name) = field(m, "material"@, as_string()) {
        lemma_name_index_below(materials, material_name, 0);
    }
    if let Ok(material_name) = field(m, "fallback_material"@, as_string()) {
        lemma_name_index_below(materials, material_name, 0);
    }
}

proof fn lemma_primitives_refs(defs: Seq<(Seq<char>, MapModel)>, materials: Seq<Seq<char>>, shapes: Seq<Seq<char>>, n: int)
    ensures
        primitives_of(defs, materials, shapes, n) matches Ok(ps) ==> forall|k: int|
            0 <= k < ps.len() ==> refs_within(#[trigger] ps[k], materials.len() as int, shapes.len() as int),
    decreases n,
{
    if n > 0 {
        lemma_primitives_refs(defs, materials, shapes, n - 1);
        lemma_primitive_refs(defs[n - 1].0, defs[n - 1].1, materials, shapes);
    }
}

/// A scene read from a scene file only refers to shapes and materials that
/// it defines: a primitive that names a missing one is reported as an error
/// instead.
pub proof fn lemma_scene_references_resolve(s: Seq<char>)
    ensures
        spec_parse_scene(s) matches Ok(scene) ==> references_resolve(scene),
{
    if let Ok(ts) = spec_tokenize(s) {
        if let Ok((m, _)) = parse_map(ts, 0) {
            if let Ok(materials) = field(m, "materials"@, as_materials()) {
                if let Ok(shapes) = field(m, "shapes"@, as_shapes()) {
                    if let Ok(defs) = field(m, "primitives"@, as_primitive_defs()) {
                        lemma_primitives_refs(defs, names_of(materials), names_of(shapes), defs.len() as int);
                    }
                }
            }
        }
    }
}

/// Reads the field `key` of `m` as a list, as `field` with `list_of`
/// describes.
fn get_list_field<T: View, F: Fn(&RawValue) -> Result<T, ParserError>>(
    m: &RawValueMap,
    key: &str,
    conv: F,
    Ghost(spec): Ghost<spec_fn(RawModel) -> Result<T::V, ErrorSpec>>,
) -> (r: Result<Vec<T>, ParserError>)
    requires
        forall|v: &RawValue| #[trigger] conv.requires((v,)),
        forall|v: &RawValue, out: Result<T, ParserError>| #[trigger] conv.ensures((v,), out) ==> agrees(out, spec(v@)),
    ensures
        agrees_list(r, field(m@, key@, |v: RawModel| list_of(v, spec))),
{
    match m.lookup(key) {
        None => {
            let message = concat(key, " not found in map");
            Err(ParserError::new(message.as_str(), &m.location))
        },
        Some(v) => match list_value(v, conv, Ghost(spec)) {
            Ok(t) => Ok(t),
            Err(e) => {
                let k = key.to_owned();
                Err(conversion_failure(&k, e, &m.location))
            },
        },
    }
}

/// Reads the field `key` of `m` as named values, as `field` with `named_of`
/// describes.
fn get_named_field<T: View, F: Fn(&RawValue) -> Result<T, ParserError>>(
    m: &RawValueMap,
    key: &str,
    conv: F,
    Ghost(spec): Ghost<spec_fn(RawModel) -> Result<T::V, ErrorSpec>>,
) -> (r: Result<Vec<(String, T)>, ParserError>)
    requires
        forall|v: &RawValue| #[trigger] conv.requires((v,)),
        forall|v: &RawValue, out: Result<T, ParserError>| #[trigger] conv.ensures((v,), out) ==> agrees(out, spec(v@)),
    ensures
        agrees_named(r, field(m@, key@, |v: RawModel| named_of(v, spec))),
{
    match m.lookup(key) {
        None => {
            let message = concat(key, " not found in map");
            Err(ParserError::new(message.as_str(), &m.location))
        },
        Some(v) => match named_value(v, conv, Ghost(spec)) {
            Ok(t) => Ok(t),
            Err(e) => {
                let k = key.to_owned();
                Err(conversion_failure(&k, e, &m.location))
            },
        },
    }
}

/// Reads the field `key` of `m` as a list of typed maps.
fn get_typed_list_field<'a>(m: &'a RawValueMap, key: &str) -> (r: Result<Vec<&'a TypedRawValueMap>, ParserError>)
    ensures
        agrees_typed(r, field(m@, key@, as_primitive_defs())),
{
    match m.lookup(key) {
        None => {
            let message = concat(key, " not found in map");
            Err(ParserError::new(message.as_str(), &m.location))
        },
        Some(v) => match typed_list_value(v) {
            Ok(t) => Ok(t),
            Err(e) => {
                let k = key.to_owned();
                Err(conversion_failure(&k, e, &m.location))
            },
        },
    }
}

/// Reads the primitives that `defs` define, as `primitives_of` describes.
fn primitives_value<M, H>(defs: &Vec<&TypedRawValueMap>, materials: &Vec<(String, M)>, shapes: &Vec<(String, H)>) -> (r: Result<Vec<PrimitiveDesc<String>>, ParserError>)
    ensures
        agrees_list(r, primitives_of(
            defs@.map_values(|d: &TypedRawValueMap| d@),
            materials@.map_values(|p: (String, M)| p.0@),
            shapes@.map_values(|p: (String, H)| p.0@),
            defs@.len() as int,
        )),
{
    let ghost defs_m = defs@.map_values(|d: &TypedRawValueMap| d@);
    let ghost material_names = materials@.map_values(|p: (String, M)| p.0@);
    let ghost shape_names = shapes@.map_values(|p: (String, H)| p.0@);
    let mut primitives: Vec<PrimitiveDesc<String>> = Vec::new();
    let mut k: usize = 0;
    while k < defs.len()
        invariant
            k <= defs@.len(),
            defs_m == defs@.map_values(|d: &TypedRawValueMap| d@),
            material_names == materials@.map_values(|p: (String, M)| p.0@),
            shape_names == shapes@.map_values(|p: (String, H)| p.0@),
            primitives_of(defs_m, material_names, shape_names, k as int) matches Ok(done)
                && primitives@.len() == done.len()
                && forall|j: int| 0 <= j < done.len() ==> #[trigger] primitives@[j]@ == done[j],
        decreases defs@.len() - k,
    {
        match primitive_value(defs[k], materials, shapes) {
            Ok(p) => {
                primitives.push(p);
                k += 1;
            },
            Err(e) => {
                proof {
                    lemma_primitives_error_stays(defs_m, material_names, shape_names, k + 1, defs_m.len() as int);
                }
                return Err(e);
            },
        }
    }
    Ok(primitives)
}

/// Reads the scene that the top-level map `m` describes, as `scene_of`
/// describes.
#[verifier::rlimit(40)]
pub fn scene_value(m: &RawValueMap) -> (r: Result<SceneDesc, ParserError>)
    ensures
        agrees(r, scene_of(m@)),
{
    let max_depth = get_optional_field(m, "max_depth", number_value, Ghost(as_number()))?;
    let num_samples = get_optional_field(m, "num_samples", number_value, Ghost(as_number()))?;
    let camera = get_field(m, "camera", camera_value, Ghost(as_camera()))?;
    proof {
        assert(as_lights() =~= (|v: RawModel| list_of(v, as_light())));
        assert(as_materials() =~= (|v: RawModel| named_of(v, as_material())));
        assert(as_shapes() =~= (|v: RawModel| named_of(v, as_shape())));
    }
    let lights = get_list_field(m, "lights", light_value, Ghost(as_light()))?;
    let materials = get_named_field(m, "materials", material_value, Ghost(as_material()))?;
    let shapes = get_named_field(m, "shapes", shape_value, Ghost(as_shape()))?;
    let defs = get_typed_list_field(m, "primitives")?;
    let ghost lights_m = lights@.map_values(|l: LightDesc<String>| l@);
    let ghost materials_m = materials@.map_values(|p: (String, MaterialDesc<String>)| p@);
    let ghost shapes_m = shapes@.map_values(|p: (String, ShapeDesc<String>)| p@);
    let ghost defs_m = defs@.map_values(|d: &TypedRawValueMap| d@);
    let ghost material_names = materials@.map_values(|p: (String, MaterialDesc<String>)| p.0@);
    let ghost shape_names = shapes@.map_values(|p: (String, ShapeDesc<String>)| p.0@);
    proof {
        let fl = field(m@, "lights"@, as_lights());
        assert(fl->Ok_0 =~= lights_m);
        let fm = field(m@, "materials"@, as_materials());
        assert(fm->Ok_0 =~= materials_m);
        let fs = field(m@, "shapes"@, as_shapes());
        assert(fs->Ok_0 =~= shapes_m);
        let fp = field(m@, "primitives"@, as_primitive_defs());
        assert(fp->Ok_0 == defs_m);
        assert(names_of(materials_m) =~= material_names);
        assert(names_of(shapes_m) =~= shape_names);
    }
    let primitives = primitives_value(&defs, &materials, &shapes)?;
    let scene = SceneDesc { max_depth, num_samples, camera, lights, materials, shapes, primitives };
    proof {
        let done = primitives_of(defs_m, names_of(materials_m), names_of(shapes_m), defs_m.len() as int)->Ok_0;
        assert(scene@.primitives =~= done);
        assert(scene@.lights =~= lights_m);
        assert(scene@.materials =~= materials_m);
        assert(scene@.shapes =~= shapes_m);
    }
    Ok(scene)
}

/// Reads a scene file into a scene description, as `spec_parse_scene`
/// describes: tokenizing and parsing errors, then the first error of
/// `scene_of`, are reported.
pub fn parse_scene(input: &str) -> (r: Result<SceneDesc, ParserError>)
    requires
        input@.len() < usize::MAX,
    ensures
        agrees(r, spec_parse_scene(input@)),
{
    let tokens = tokenize(input)?;
    proof {
        lemma_tokens_end_with_eof(input@, 0);
        assert(tokens_view(tokens@).len() == tokens@.len());
        assert(tokens_view(tokens@).last() == tokens@.last()@);
    }
    let mut stream = TokenStream::new(&tokens);
    let scene_map = RawValueMap::from_tokens(&mut stream)?;
    scene_value(&scene_map)
}

/// The top-level map of a scene file, when its text reads as one.
pub open spec fn spec_scene_map(s: Seq<char>) -> Option<MapModel> {
    match spec_tokenize(s) {
        Err(_) => None,
        Ok(ts) => match parse_map(ts, 0) {
            Err(_) => None,
            Ok((m, _)) => Some(m),
        },
    }
}

/// Reads a scene file as `parse_scene` does; on success it also gives the
/// typed maps with keys that reading the scene never asked for, as
/// `scene_reports` gives them.
pub fn parse_scene_reporting_unused(input: &str) -> (r: Result<(SceneDesc, Vec<(String, Location, Vec<String>)>), ParserError>)
    requires
        input@.len() < usize::MAX,
    ensures
        r is Ok <==> spec_parse_scene(input@) is Ok,
        r matches Err(e) ==> spec_parse_scene(input@) matches Err(f) && e@ == f,
        r matches Ok((d, w)) ==> (spec_parse_scene(input@) matches Ok(s) && d@ == s) && (spec_scene_map(input@) matches Some(m)
            && reports_view(w@) == scene_reports(m)),
{
    let tokens = tokenize(input)?;
    proof {
        lemma_tokens_end_with_eof(input@, 0);
        assert(tokens_view(tokens@).len() == tokens@.len());
        assert(tokens_view(tokens@).last() == tokens@.last()@);
    }
    let mut stream = TokenStream::new(&tokens);
    let scene_map = RawValueMap::from_tokens(&mut stream)?;
    let scene = scene_value(&scene_map)?;
    let unused = unused_scene_keys(&scene_map);
    Ok((scene, unused))
}

/// The check made once every light is known, area lights included: a scene
/// needs at least one.
pub fn check_lights(num_lights: usize) -> (r: Result<(), ParserError>)
    ensures
        num_lights > 0 <==> r is Ok,
        r matches Err(e) ==> e@ == error_at("No lights in the scene."@, Location { line: 0, column: 0 }),
{
    if num_lights == 0 {
        Err(ParserError::new("No lights in the scene.", &Location { line: 0, column: 0 }))
    } else {
        Ok(())
    }
}

// ----- what each part of a description is read from -----

/// A material is of the kind its type name names, and each of its parts is
/// the value stored under the key of the part's name.
pub proof fn lemma_material_parts(name: Seq<char>, m: MapModel, u: Seq<Seq<char>>)
    ensures
        match material_of(RawModel::TypedMap(name, m, u)) {
            Ok(MaterialDesc::Matte { reflectance, sigma }) => name == "Matte"@ && field(m, "reflectance"@, as_color_texture())
                == Ok::<_, ErrorSpec>(reflectance) && field(m, "sigma"@, as_number_texture()) == Ok::<_, ErrorSpec>(sigma),
            Ok(MaterialDesc::Glass { reflectance, transmittance, eta }) => name == "Glass"@ && field(
                m,
                "reflectance"@,
                as_color_texture(),
            ) == Ok::<_, ErrorSpec>(reflectance) && field(m, "transmittance"@, as_color_texture()) == Ok::<_, ErrorSpec>(
                transmittance,
            ) && field(m, "eta"@, as_number()) == Ok::<_, ErrorSpec>(eta),
            Ok(MaterialDesc::Plastic { diffuse, specular, roughness }) => name == "Plastic"@ && field(
                m,
                "diffuse"@,
                as_color_texture(),
            ) == Ok::<_, ErrorSpec>(diffuse) && field(m, "specular"@, as_color_texture()) == Ok::<_, ErrorSpec>(specular)
                && field(m, "roughness"@, as_number_texture()) == Ok::<_, ErrorSpec>(roughness),
            Ok(MaterialDesc::Metal { eta, k }) => name == "Metal"@ && field(m, "eta"@, as_color_texture()) == Ok::<
                _,
                ErrorSpec,
            >(eta) && field(m, "k"@, as_color_texture()) == Ok::<_, ErrorSpec>(k),
            Err(_) => true,
        },
{
    reveal_strlit("Matte");
    reveal_strlit("Glass");
    reveal_strlit("Plastic");
    reveal_strlit("Metal");
}

/// A material of a known kind whose parts all read, reads.
pub proof fn lemma_known_material_reads(name: Seq<char>, m: MapModel, u: Seq<Seq<char>>)
    ensures
        name == "Matte"@ && field(m, "reflectance"@, as_color_texture()) is Ok && field(m, "sigma"@, as_number_texture()) is Ok
            ==> material_of(RawModel::TypedMap(name, m, u)) is Ok,
        name == "Glass"@ && field(m, "reflectance"@, as_color_texture()) is Ok && field(m, "transmittance"@, as_color_texture()) is Ok
            && field(m, "eta"@, as_number()) is Ok ==> material_of(RawModel::TypedMap(name, m, u)) is Ok,
        name == "Plastic"@ && field(m, "diffuse"@, as_color_texture()) is Ok && field(m, "specular"@, as_color_texture()) is Ok
            && field(m, "roughness"@, as_number_texture()) is Ok ==> material_of(RawModel::TypedMap(name, m, u)) is Ok,
        name == "Metal"@ && field(m, "eta"@, as_color_texture()) is Ok && field(m, "k"@, as_color_texture()) is Ok
            ==> material_of(RawModel::TypedMap(name, m, u)) is Ok,
{
    reveal_strlit("Matte");
    reveal_strlit("Glass");
    reveal_strlit("Plastic");
    reveal_strlit("Metal");
}

/// A shape is of the kind its type name names, and each of its parts is the
/// value stored under the key of the part's name, an optional part being
/// absent exactly when its key is; a triangle keeps where its map starts.
/// When every part of a known kind reads, the shape reads.
pub proof fn lemma_shape_parts(name: Seq<char>, m: MapModel, u: Seq<Seq<char>>)
    ensures
        match shape_of(RawModel::TypedMap(name, m, u)) {
            Ok(ShapeDesc::Sphere { origin, radius }) => name == "Sphere"@ && field(m, "origin"@, as_point()) == Ok::<_, ErrorSpec>(
                origin,
            ) && field(m, "radius"@, as_number()) == Ok::<_, ErrorSpec>(radius),
            Ok(ShapeDesc::Triangle { v0, v1, v2, location }) => name == "Triangle"@ && field(m, "v0"@, as_point()) == Ok::<
                _,
                ErrorSpec,
            >(v0) && field(m, "v1"@, as_point()) == Ok::<_, ErrorSpec>(v1) && field(m, "v2"@, as_point()) == Ok::<_, ErrorSpec>(v2)
                && location == m.location,
            Ok(ShapeDesc::Disk { origin, rotate_x, rotate_y, radius, inner_radius }) => name == "Disk"@ && field(
                m,
                "origin"@,
                as_point(),
            ) == Ok::<_, ErrorSpec>(origin) && optional_field(m, "rotate_x"@, as_number()) == Ok::<_, ErrorSpec>(rotate_x)
                && optional_field(m, "rotate_y"@, as_number()) == Ok::<_, ErrorSpec>(rotate_y) && field(m, "radius"@, as_number())
                == Ok::<_, ErrorSpec>(radius) && optional_field(m, "inner_radius"@, as_number()) == Ok::<_, ErrorSpec>(inner_radius),
            Err(_) => true,
        },
        name == "Sphere"@ && field(m, "origin"@, as_point()) is Ok && field(m, "radius"@, as_number()) is Ok ==> shape_of(
            RawModel::TypedMap(name, m, u),
        ) is Ok,
        name == "Triangle"@ && field(m, "v0"@, as_point()) is Ok && field(m, "v1"@, as_point()) is Ok && field(m, "v2"@, as_point())
            is Ok ==> shape_of(RawModel::TypedMap(name, m, u)) is Ok,
        name == "Disk"@ && field(m, "origin"@, as_point()) is Ok && optional_field(m, "rotate_x"@, as_number()) is Ok
            && optional_field(m, "rotate_y"@, as_number()) is Ok && field(m, "radius"@, as_number()) is Ok && optional_field(
            m,
            "inner_radius"@,
            as_number(),
        ) is Ok ==> shape_of(RawModel::TypedMap(name, m, u)) is Ok,
{
    reveal_strlit("Sphere");
    reveal_strlit("Triangle");
    reveal_strlit("Disk");
}

/// A light is of the kind its type name names, and each of its parts is the
/// value stored under the key of the part's name; when every part of a
/// known kind reads, the light reads.
pub proof fn lemma_light_parts(name: Seq<char>, m: MapModel, u: Seq<Seq<char>>)
    ensures
        match light_of(RawModel::TypedMap(name, m, u)) {
            Ok(LightDesc::Point { origin, intensity }) => name == "Point"@ && field(m, "origin"@, as_point()) == Ok::<_, ErrorSpec>(
                origin,
            ) && field(m, "intensity"@, as_color()) == Ok::<_, ErrorSpec>(intensity),
            Ok(LightDesc::Distant { direction, intensity }) => name == "Distant"@ && field(m, "direction"@, as_vector()) == Ok::<
                _,
                ErrorSpec,
            >(direction) && field(m, "intensity"@, as_color()) == Ok::<_, ErrorSpec>(intensity),
            Ok(LightDesc::Infinite { intensity }) => name == "Infinite"@ && field(m, "intensity"@, as_color()) == Ok::<
                _,
                ErrorSpec,
            >(intensity),
            Err(_) => true,
        },
        name == "Point"@ && field(m, "origin"@, as_point()) is Ok && field(m, "intensity"@, as_color()) is Ok ==> light_of(
            RawModel::TypedMap(name, m, u),
        ) is Ok,
        name == "Distant"@ && field(m, "direction"@, as_vector()) is Ok && field(m, "intensity"@, as_color()) is Ok ==> light_of(
            RawModel::TypedMap(name, m, u),
        ) is Ok,
        name == "Infinite"@ && field(m, "intensity"@, as_color()) is Ok ==> light_of(RawModel::TypedMap(name, m, u)) is Ok,
{
    reveal_strlit("Point");
    reveal_strlit("Distant");
    reveal_strlit("Infinite");
}

/// A camera's projection is the one its type name names, and each of its
/// parts is the value stored under the key of the part's name: the field of
/// view is read exactly for a perspective camera, and an optional part is
/// absent exactly when its key is.
pub proof fn lemma_camera_parts(name: Seq<char>, m: MapModel, u: Seq<Seq<char>>)
    ensures
        camera_of(RawModel::TypedMap(name, m, u)) matches Ok(c) ==> {
            &&& field(m, "film"@, as_film()) == Ok::<_, ErrorSpec>(c.film)
            &&& field(m, "origin"@, as_point()) == Ok::<_, ErrorSpec>(c.origin)
            &&& field(m, "target"@, as_point()) == Ok::<_, ErrorSpec>(c.target)
            &&& field(m, "up"@, as_vector()) == Ok::<_, ErrorSpec>(c.up)
            &&& optional_field(m, "lens_radius"@, as_number()) == Ok::<_, ErrorSpec>(c.lens_radius)
            &&& optional_field(m, "focal_distance"@, as_number()) == Ok::<_, ErrorSpec>(c.focal_distance)
            &&& (c.camera_type == CameraType::Perspective <==> name == "Perspective"@)
            &&& (c.camera_type == CameraType::Orthographic <==> name == "Orthographic"@)
            &&& (name == "Perspective"@ ==> c.fov is Some && field(m, "fov"@, as_number()) == Ok::<_, ErrorSpec>(c.fov->0))
            &&& (name == "Orthographic"@ ==> c.fov is None)
        },
        (name == "Perspective"@ || name == "Orthographic"@) && field(m, "film"@, as_film()) is Ok && field(m, "origin"@, as_point())
            is Ok && field(m, "target"@, as_point()) is Ok && field(m, "up"@, as_vector()) is Ok && optional_field(
            m,
            "lens_radius"@,
            as_number(),
        ) is Ok && optional_field(m, "focal_distance"@, as_number()) is Ok && (name == "Perspective"@ ==> field(
            m,
            "fov"@,
            as_number(),
        ) is Ok) ==> camera_of(RawModel::TypedMap(name, m, u)) is Ok,
{
    reveal_strlit("Perspective");
    reveal_strlit("Orthographic");
}

/// A texture is a constant exactly when the value itself reads as one, and
/// is then that value; otherwise it is a `Checkerboard` typed map whose two
/// values and scale are those stored under `a`, `b` and `scale`.
pub proof fn lemma_texture_parts<M>(v: RawModel, conv: spec_fn(RawModel) -> Result<M, ErrorSpec>)
    ensures
        conv(v) matches Ok(t) ==> texture_of(v, conv) == Ok::<_, ErrorSpec>(TextureDesc::<M, Seq<char>>::Constant(t)),
        texture_of(v, conv) matches Ok(TextureDesc::Checkerboard { a, b, scale }) ==> conv(v) is Err && (v matches RawModel::TypedMap(
            name,
            m,
            _,
        ) && name == "Checkerboard"@ && field(m, "a"@, conv) == Ok::<_, ErrorSpec>(a) && field(m, "b"@, conv) == Ok::<_, ErrorSpec>(b)
            && optional_field(m, "scale"@, as_number()) == Ok::<_, ErrorSpec>(scale)),
{
}

/// Film dimensions are the numbers stored under `width` and `height`.
pub proof fn lemma_film_parts(v: RawModel)
    ensures
        film_of(v) matches Ok(f) ==> (v matches RawModel::Mapping(m) && field(m, "width"@, as_number()) == Ok::<_, ErrorSpec>(f.width)
            && field(m, "height"@, as_number()) == Ok::<_, ErrorSpec>(f.height)),
{
}

/// A primitive is of the kind its type name names. A `Shape` refers to the
/// shape named under `shape`; without an `emittance` it is a shape with the
/// material named under `material`, with one it is an area light of that
/// emittance. A `Mesh` has the file named under `file_name` and the material
/// named under `fallback_material`. Each name refers to the first
/// description of that name, by its position.
pub proof fn lemma_primitive_parts(name: Seq<char>, m: MapModel, materials: Seq<Seq<char>>, shapes: Seq<Seq<char>>)
    ensures
        match primitive_of(name, m, materials, shapes) {
            Ok(PrimitiveDesc::Shape { shape, material }) => name == "Shape"@ && key_index(m.entries, "emittance"@, 0) is None
                && (field(m, "shape"@, as_string()) matches Ok(s) && (name_index(shapes, s, 0) matches Some(j) && shape == j as usize)) && (field(
                m,
                "material"@,
                as_string(),
            ) matches Ok(t) && (name_index(materials, t, 0) matches Some(j) && material == j as usize)),
            Ok(PrimitiveDesc::AreaLight { shape, emittance }) => name == "Shape"@ && key_index(m.entries, "emittance"@, 0) is Some
                && (field(m, "shape"@, as_string()) matches Ok(s) && (name_index(shapes, s, 0) matches Some(j) && shape == j as usize)) && field(
                m,
                "emittance"@,
                as_color(),
            ) == Ok::<_, ErrorSpec>(emittance),
            Ok(PrimitiveDesc::Mesh { file_name, fallback_material }) => name == "Mesh"@ && field(m, "file_name"@, as_string())
                == Ok::<_, ErrorSpec>(file_name) && (field(m, "fallback_material"@, as_string()) matches Ok(t) && (name_index(materials, t, 0) matches Some(j) && fallback_material == j as usize)),
            Err(_) => true,
        },
{
    reveal_strlit("Shape");
    reveal_strlit("Mesh");
}

/// A scene's settings, camera and lists are the values stored under the
/// keys of their names; the primitives are read from the definitions under
/// `primitives`, their names resolved among the materials and shapes read.
pub proof fn lemma_scene_parts(m: MapModel)
    ensures
        scene_of(m) matches Ok(s) ==> {
            &&& optional_field(m, "max_depth"@, as_number()) == Ok::<_, ErrorSpec>(s.max_depth)
            &&& optional_field(m, "num_samples"@, as_number()) == Ok::<_, ErrorSpec>(s.num_samples)
            &&& field(m, "camera"@, as_camera()) == Ok::<_, ErrorSpec>(s.camera)
            &&& field(m, "lights"@, as_lights()) == Ok::<_, ErrorSpec>(s.lights)
            &&& field(m, "materials"@, as_materials()) == Ok::<_, ErrorSpec>(s.materials)
            &&& field(m, "shapes"@, as_shapes()) == Ok::<_, ErrorSpec>(s.shapes)
            &&& (field(m, "primitives"@, as_primitive_defs()) matches Ok(defs) && primitives_of(
                defs,
                names_of(s.materials),
                names_of(s.shapes),
                defs.len() as int,
            ) == Ok::<_, ErrorSpec>(s.primitives))
        },
{
}

proof fn lemma_items_of_parts<M>(items: Seq<RawModel>, conv: spec_fn(RawModel) -> Result<M, ErrorSpec>, n: int)
    requires
        0 <= n <= items.len(),
    ensures
        items_of(items, conv, n) matches Ok(xs) ==> xs.len() == n && forall|k: int| 0 <= k < n ==> conv(items[k]) == Ok::<_, ErrorSpec>(#[trigger] xs[k]),
        (forall|k: int| 0 <= k < n ==> #[trigger] conv(items[k]) is Ok) ==> items_of(items, conv, n) is Ok,
    decreases n,
{
    if n > 0 {
        lemma_items_of_parts(items, conv, n - 1);
    }
}

/// A list is read from an array, item by item in order: it has one value for
/// each item, the item's value read; it reads when every item does.
pub proof fn lemma_list_parts<M>(v: RawModel, conv: spec_fn(RawModel) -> Result<M, ErrorSpec>)
    ensures
        list_of(v, conv) matches Ok(xs) ==> (v matches RawModel::Array(items) && xs.len() == items.len() && forall|k: int|
            0 <= k < items.len() ==> conv(items[k]) == Ok::<_, ErrorSpec>(#[trigger] xs[k])),
        v matches RawModel::Array(items) && (forall|k: int| 0 <= k < items.len() ==> #[trigger] conv(items[k]) is Ok) ==> list_of(
            v,
            conv,
        ) is Ok,
{
    if let RawModel::Array(items) = v {
        lemma_items_of_parts(items, conv, items.len() as int);
    }
}

proof fn lemma_entries_of_parts<M>(entries: Seq<(Seq<char>, RawModel)>, conv: spec_fn(RawModel) -> Result<M, ErrorSpec>, n: int)
    requires
        0 <= n <= entries.len(),
    ensures
        entries_of(entries, conv, n) matches Ok(ps) ==> ps.len() == n && forall|k: int|
            0 <= k < n ==> (#[trigger] ps[k]).0 == entries[k].0 && conv(entries[k].1) == Ok::<_, ErrorSpec>(ps[k].1),
        (forall|k: int| 0 <= k < n ==> #[trigger] conv(entries[k].1) is Ok) ==> entries_of(entries, conv, n) is Ok,
    decreases n,
{
    if n > 0 {
        lemma_entries_of_parts(entries, conv, n - 1);
    }
}

/// Named descriptions are read from a plain map, entry by entry in the order
/// written: each keeps its entry's name and is its entry's value read; they
/// read when every value does.
pub proof fn lemma_named_parts<M>(v: RawModel, conv: spec_fn(RawModel) -> Result<M, ErrorSpec>)
    ensures
        named_of(v, conv) matches Ok(ps) ==> (v matches RawModel::Mapping(m) && ps.len() == m.entries.len() && forall|k: int|
            0 <= k < m.entries.len() ==> (#[trigger] ps[k]).0 == m.entries[k].0 && conv(m.entries[k].1) == Ok::<_, ErrorSpec>(
                ps[k].1,
            )),
        v matches RawModel::Mapping(m) && (forall|k: int| 0 <= k < m.entries.len() ==> #[trigger] conv(m.entries[k].1) is Ok)
            ==> named_of(v, conv) is Ok,
{
    if let RawModel::Mapping(m) = v {
        lemma_entries_of_parts(m.entries, conv, m.entries.len() as int);
    }
}

/// The primitives of a scene are those its definitions give, one for each
/// definition, in order.
pub proof fn lemma_primitives_parts(defs: Seq<(Seq<char>, MapModel)>, materials: Seq<Seq<char>>, shapes: Seq<Seq<char>>, n: int)
    requires
        0 <= n <= defs.len(),
    ensures
        primitives_of(defs, materials, shapes, n) matches Ok(ps) ==> ps.len() == n && forall|k: int|
            0 <= k < n ==> primitive_of(defs[k].0, defs[k].1, materials, shapes) == Ok::<_, ErrorSpec>(#[trigger] ps[k]),
    decreases n,
{
    if n > 0 {
        lemma_primitives_parts(defs, materials, shapes, n - 1);
    }
}

} // verus!
