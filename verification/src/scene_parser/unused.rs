use vstd::prelude::*;
use super::Location;
use super::tokenizer::ErrorSpec;
use super::scene_parser::{
    field, optional_field, camera_of, light_of, material_of, shape_of, texture_of, primitive_of, as_film, as_point,
    as_vector, as_number, as_color, as_string, as_color_texture, as_number_texture,
};
use super::parser::{
    RawValue, RawValueMap, RawValueArray, RawModel, MapModel, key_index, unused_keys_of, strings_model,
    lemma_raw_model, lemma_map_entries, lemma_array_items, text_is,
};

verus! {

/// The part a value plays in a scene file, which decides the keys that
/// reading a typed map there asks for.
#[derive(Clone, Copy, Debug)]
pub enum Role {
    Scene,
    Lights,
    Materials,
    Shapes,
    Primitives,
    Camera,
    Light,
    Material,
    Texture,
    Shape,
    Primitive,
    Other,
}

/// The keys that reading a typed map named `name` with entries `m` in role
/// `role` asks for, when the read succeeds. A typed map that nothing reads
/// has none asked for.
pub open spec fn asked_keys(role: Role, name: Seq<char>, m: MapModel) -> Seq<Seq<char>> {
    match role {
        Role::Camera => seq!["film"@, "origin"@, "target"@, "up"@, "lens_radius"@, "focal_distance"@] + if name
            == "Perspective"@ {
            seq!["fov"@]
        } else {
            Seq::empty()
        },
        Role::Light => if name == "Point"@ {
            seq!["origin"@, "intensity"@]
        } else if name == "Distant"@ {
            seq!["direction"@, "intensity"@]
        } else if name == "Infinite"@ {
            seq!["intensity"@]
        } else {
            Seq::empty()
        },
        Role::Material => if name == "Matte"@ {
            seq!["reflectance"@, "sigma"@]
        } else if name == "Glass"@ {
            seq!["reflectance"@, "transmittance"@, "eta"@]
        } else if name == "Plastic"@ {
            seq!["diffuse"@, "specular"@, "roughness"@]
        } else if name == "Metal"@ {
            seq!["eta"@, "k"@]
        } else {
            Seq::empty()
        },
        Role::Texture => if name == "Checkerboard"@ {
            seq!["a"@, "b"@, "scale"@]
        } else {
            Seq::empty()
        },
        Role::Shape => if name == "Sphere"@ {
            seq!["origin"@, "radius"@]
        } else if name == "Triangle"@ {
            seq!["v0"@, "v1"@, "v2"@]
        } else if name == "Disk"@ {
            seq!["origin"@, "rotate_x"@, "rotate_y"@, "radius"@, "inner_radius"@]
        } else {
            Seq::empty()
        },
        Role::Primitive => if name == "Shape"@ {
            seq!["shape"@, "emittance"@] + if key_index(m.entries, "emittance"@, 0) is None {
                seq!["material"@]
            } else {
                Seq::empty()
            }
        } else if name == "Mesh"@ {
            seq!["file_name"@, "fallback_material"@]
        } else {
            Seq::empty()
        },
        _ => Seq::empty(),
    }
}

/// Whether `key` names a texture of the material named `name`.
pub open spec fn is_texture_field(name: Seq<char>, key: Seq<char>) -> bool {
    ||| name == "Matte"@ && (key == "reflectance"@ || key == "sigma"@)
    ||| name == "Glass"@ && (key == "reflectance"@ || key == "transmittance"@)
    ||| name == "Plastic"@ && (key == "diffuse"@ || key == "specular"@ || key == "roughness"@)
    ||| name == "Metal"@ && (key == "eta"@ || key == "k"@)
}

/// The role of the value under `key` in a map in role `parent`; `name` is
/// the map's type name, if it has one.
pub open spec fn child_role(parent: Role, name: Seq<char>, key: Seq<char>) -> Role {
    match parent {
        Role::Scene => if key == "camera"@ {
            Role::Camera
        } else if key == "lights"@ {
            Role::Lights
        } else if key == "materials"@ {
            Role::Materials
        } else if key == "shapes"@ {
            Role::Shapes
        } else if key == "primitives"@ {
            Role::Primitives
        } else {
            Role::Other
        },
        Role::Materials => Role::Material,
        Role::Shapes => Role::Shape,
        Role::Material => if is_texture_field(name, key) {
            Role::Texture
        } else {
            Role::Other
        },
        _ => Role::Other,
    }
}

/// The role of the items of an array in role `parent`.
pub open spec fn item_role(parent: Role) -> Role {
    match parent {
        Role::Lights => Role::Light,
        Role::Primitives => Role::Primitive,
        _ => Role::Other,
    }
}

/// A report of unused keys: the type name of a typed map, where it starts,
/// and its keys that no reading asked for, in the order written.
pub open spec fn typed_report(name: Seq<char>, m: MapModel, role: Role) -> Seq<(Seq<char>, Location, Seq<Seq<char>>)> {
    let unused = unused_keys_of(m.entries, asked_keys(role, name, m), m.entries.len() as int);
    if unused.len() > 0 {
        seq![(name, m.location, unused)]
    } else {
        Seq::empty()
    }
}

/// The reports for the typed maps in `v`, a value in role `role`, outer ones
/// first, in the order written.
pub open spec fn value_reports(v: RawModel, role: Role) -> Seq<(Seq<char>, Location, Seq<Seq<char>>)>
    decreases v, 0int,
{
    match v {
        RawModel::TypedMap(name, m, _) => typed_report(name, m, role) + entry_reports(
            m.entries,
            role,
            name,
            m.entries.len() as int,
        ),
        RawModel::Mapping(m) => entry_reports(m.entries, role, Seq::empty(), m.entries.len() as int),
        RawModel::Array(xs) => item_reports(xs, item_role(role), xs.len() as int),
        _ => Seq::empty(),
    }
}

/// The reports for the values of the first `n` entries of a map in role
/// `parent` named `name`.
pub open spec fn entry_reports(es: Seq<(Seq<char>, RawModel)>, parent: Role, name: Seq<char>, n: int) -> Seq<
    (Seq<char>, Location, Seq<Seq<char>>),
>
    decreases es, n,
{
    if n <= 0 || n > es.len() {
        Seq::empty()
    } else {
        entry_reports(es, parent, name, n - 1) + value_reports(es[n - 1].1, child_role(parent, name, es[n - 1].0))
    }
}

/// The reports for the first `n` items of an array whose items are in role
/// `role`.
pub open spec fn item_reports(xs: Seq<RawModel>, role: Role, n: int) -> Seq<(Seq<char>, Location, Seq<Seq<char>>)>
    decreases xs, n,
{
    if n <= 0 || n > xs.len() {
        Seq::empty()
    } else {
        item_reports(xs, role, n - 1) + value_reports(xs[n - 1], role)
    }
}

/// The mathematical content of a list of reports.
pub open spec fn reports_view(rs: Seq<(String, Location, Vec<String>)>) -> Seq<(Seq<char>, Location, Seq<Seq<char>>)> {
    rs.map_values(|r: (String, Location, Vec<String>)| (r.0@, r.1, strings_model(r.2@)))
}

/// The reports for the typed maps of a scene file whose top-level map is
/// `scene`: each typed map with a key that reading the scene never asks
/// for, with those keys.
pub open spec fn scene_reports(scene: MapModel) -> Seq<(Seq<char>, Location, Seq<Seq<char>>)> {
    entry_reports(scene.entries, Role::Scene, Seq::empty(), scene.entries.len() as int)
}

proof fn lemma_reports_append(a: Seq<(String, Location, Vec<String>)>, b: Seq<(String, Location, Vec<String>)>)
    ensures
        reports_view(a + b) == reports_view(a) + reports_view(b),
{
    assert(reports_view(a + b) =~= reports_view(a) + reports_view(b));
}

fn push_all(acc: &mut Vec<(String, Location, Vec<String>)>, more: Vec<(String, Location, Vec<String>)>)
    ensures
        reports_view(final(acc)@) == reports_view(old(acc)@) + reports_view(more@),
{
    let mut more = more;
    let ghost a = acc@;
    let ghost b = more@;
    acc.append(&mut more);
    proof {
        lemma_reports_append(a, b);
    }
}

/// Pushes `s` to `v`.
fn push_key(v: &mut Vec<String>, s: &str)
    ensures
        strings_model(final(v)@) == strings_model(old(v)@).push(s@),
{
    let ghost before = v@;
    v.push(s.to_owned());
    assert(strings_model(v@) =~= strings_model(before).push(s@));
}

/// The keys that `asked_keys` gives.
fn asked_keys_of(role: Role, name: &String, m: &RawValueMap) -> (r: Vec<String>)
    ensures
        strings_model(r@) == asked_keys(role, name@, m@),
{
    let mut r: Vec<String> = Vec::new();
    match role {
        Role::Camera => {
            push_key(&mut r, "film");
            push_key(&mut r, "origin");
            push_key(&mut r, "target");
            push_key(&mut r, "up");
            push_key(&mut r, "lens_radius");
            push_key(&mut r, "focal_distance");
            if text_is(name, "Perspective") {
                push_key(&mut r, "fov");
            }
        },
        Role::Light => {
            if text_is(name, "Point") {
                push_key(&mut r, "origin");
                push_key(&mut r, "intensity");
            } else if text_is(name, "Distant") {
                push_key(&mut r, "direction");
                push_key(&mut r, "intensity");
            } else if text_is(name, "Infinite") {
                push_key(&mut r, "intensity");
            }
        },
        Role::Material => {
            if text_is(name, "Matte") {
                push_key(&mut r, "reflectance");
                push_key(&mut r, "sigma");
            } else if text_is(name, "Glass") {
                push_key(&mut r, "reflectance");
                push_key(&mut r, "transmittance");
                push_key(&mut r, "eta");
            } else if text_is(name, "Plastic") {
                push_key(&mut r, "diffuse");
                push_key(&mut r, "specular");
                push_key(&mut r, "roughness");
            } else if text_is(name, "Metal") {
                push_key(&mut r, "eta");
                push_key(&mut r, "k");
            }
        },
        Role::Texture => {
            if text_is(name, "Checkerboard") {
                push_key(&mut r, "a");
                push_key(&mut r, "b");
                push_key(&mut r, "scale");
            }
        },
        Role::Shape => {
            if text_is(name, "Sphere") {
                push_key(&mut r, "origin");
                push_key(&mut r, "radius");
            } else if text_is(name, "Triangle") {
                push_key(&mut r, "v0");
                push_key(&mut r, "v1");
                push_key(&mut r, "v2");
            } else if text_is(name, "Disk") {
                push_key(&mut r, "origin");
                push_key(&mut r, "rotate_x");
                push_key(&mut r, "rotate_y");
                push_key(&mut r, "radius");
                push_key(&mut r, "inner_radius");
            }
        },
        Role::Primitive => {
            if text_is(name, "Shape") {
                push_key(&mut r, "shape");
                push_key(&mut r, "emittance");
                if !m.has("emittance") {
                    push_key(&mut r, "material");
                }
            } else if text_is(name, "Mesh") {
                push_key(&mut r, "file_name");
                push_key(&mut r, "fallback_material");
            }
        },
        _ => {},
    }
    assert(strings_model(r@) =~= asked_keys(role, name@, m@));
    r
}

/// The role that `child_role` gives.
fn child_role_of(parent: Role, name: &String, key: &String) -> (r: Role)
    ensures
        r == child_role(parent, name@, key@),
{
    match parent {
        Role::Scene => if text_is(key, "camera") {
            Role::Camera
        } else if text_is(key, "lights") {
            Role::Lights
        } else if text_is(key, "materials") {
            Role::Materials
        } else if text_is(key, "shapes") {
            Role::Shapes
        } else if text_is(key, "primitives") {
            Role::Primitives
        } else {
            Role::Other
        },
        Role::Materials => Role::Material,
        Role::Shapes => Role::Shape,
        Role::Material => {
            let texture = (text_is(name, "Matte") && (text_is(key, "reflectance") || text_is(key, "sigma"))) || (
            text_is(name, "Glass") && (text_is(key, "reflectance") || text_is(key, "transmittance"))) || (text_is(
                name,
                "Plastic",
            ) && (text_is(key, "diffuse") || text_is(key, "specular") || text_is(key, "roughness"))) || (text_is(
                name,
                "Metal",
            ) && (text_is(key, "eta") || text_is(key, "k")));
            if texture {
                Role::Texture
            } else {
                Role::Other
            }
        },
        _ => Role::Other,
    }
}

/// The role that `item_role` gives.
fn item_role_of(parent: Role) -> (r: Role)
    ensures
        r == item_role(parent),
{
    match parent {
        Role::Lights => Role::Light,
        Role::Primitives => Role::Primitive,
        _ => Role::Other,
    }
}

/// The reports for the values of the entries of `m`, a map in role
/// `parent` named `name`, as `entry_reports` gives them.
fn entry_reports_of(m: &RawValueMap, parent: Role, name: &String) -> (r: Vec<(String, Location, Vec<String>)>)
    ensures
        reports_view(r@) == entry_reports(m@.entries, parent, name@, m@.entries.len() as int),
    decreases m, 0int,
{
    proof {
        lemma_map_entries(*m);
    }
    let mut acc: Vec<(String, Location, Vec<String>)> = Vec::new();
    assert(reports_view(acc@) =~= Seq::empty());
    let mut k: usize = 0;
    while k < m.map.len()
        invariant
            k <= m.map@.len(),
            m@.entries.len() == m.map@.len(),
            forall|j: int| 0 <= j < m.map@.len() ==> #[trigger] m@.entries[j] == (m.map@[j].0@, m.map@[j].1@),
            reports_view(acc@) == entry_reports(m@.entries, parent, name@, k as int),
        decreases m.map@.len() - k,
    {
        let role = child_role_of(parent, name, &m.map[k].0);
        let more = value_reports_of(&m.map[k].1, role);
        push_all(&mut acc, more);
        k += 1;
    }
    acc
}

/// The reports for the items of `a`, whose items are in role `role`, as
/// `item_reports` gives them.
fn item_reports_of(a: &RawValueArray, role: Role) -> (r: Vec<(String, Location, Vec<String>)>)
    ensures
        reports_view(r@) == item_reports(a@, role, a@.len() as int),
    decreases a, 0int,
{
    proof {
        lemma_array_items(*a);
    }
    let mut acc: Vec<(String, Location, Vec<String>)> = Vec::new();
    assert(reports_view(acc@) =~= Seq::empty());
    let mut k: usize = 0;
    while k < a.array.len()
        invariant
            k <= a.array@.len(),
            a@.len() == a.array@.len(),
            forall|j: int| 0 <= j < a.array@.len() ==> #[trigger] a@[j] == a.array@[j]@,
            reports_view(acc@) == item_reports(a@, role, k as int),
        decreases a.array@.len() - k,
    {
        let more = value_reports_of(&a.array[k], role);
        push_all(&mut acc, more);
        k += 1;
    }
    acc
}

/// The reports for the typed maps in `v`, a value in role `role`, as
/// `value_reports` gives them.
fn value_reports_of(v: &RawValue, role: Role) -> (r: Vec<(String, Location, Vec<String>)>)
    ensures
        reports_view(r@) == value_reports(v@, role),
    decreases v, 0int,
{
    proof {
        lemma_raw_model(*v);
    }
    match v {
        RawValue::TypedMap(t) => {
            proof {
                t.lemma_map_is_part();
            }
            let name = t.name();
            let m = t.map();
            let asked = asked_keys_of(role, name, m);
            let unused = m.keys_not_in(&asked);
            let mut acc: Vec<(String, Location, Vec<String>)> = Vec::new();
            if unused.len() > 0 {
                acc.push((name.clone(), m.location, unused));
            }
            assert(reports_view(acc@) =~= typed_report(name@, m@, role));
            let inner = entry_reports_of(m, role, name);
            push_all(&mut acc, inner);
            acc
        },
        RawValue::Mapping(m) => {
            let none = String::new();
            assert(none@ =~= Seq::<char>::empty());
            entry_reports_of(m, role, &none)
        },
        RawValue::Array(a) => item_reports_of(a, item_role_of(role)),
        _ => {
            let acc: Vec<(String, Location, Vec<String>)> = Vec::new();
            assert(reports_view(acc@) =~= Seq::empty());
            acc
        },
    }
}

/// The typed maps of a scene file, whose top-level map is `scene`, that have
/// keys that reading the scene never asks for, each with its type name,
/// where it starts, and those keys in the order written, as
/// `scene_reports` gives them.
pub fn unused_scene_keys(scene: &RawValueMap) -> (r: Vec<(String, Location, Vec<String>)>)
    ensures
        reports_view(r@) == scene_reports(scene@),
{
    let none = String::new();
    assert(none@ =~= Seq::<char>::empty());
    entry_reports_of(scene, Role::Scene, &none)
}

// ----- reading looks only at the keys asked for -----

/// The value stored under `key` in `m`, if any: that of its first entry
/// with this key.
pub open spec fn lookup(m: MapModel, key: Seq<char>) -> Option<RawModel> {
    match key_index(m.entries, key, 0) {
        Some(i) => Some(m.entries[i].1),
        None => None,
    }
}

/// Whether maps `a` and `b` start at the same place and hold the same
/// values under each of `keys`.
pub open spec fn agree_on_keys(a: MapModel, b: MapModel, keys: Seq<Seq<char>>) -> bool {
    &&& a.location == b.location
    &&& forall|j: int| 0 <= j < keys.len() ==> lookup(a, #[trigger] keys[j]) == lookup(b, keys[j])
}

/// Reading a field, optional or not, depends only on the value under its key
/// and where the map starts.
pub proof fn lemma_field_frame<M>(a: MapModel, b: MapModel, key: Seq<char>, conv: spec_fn(RawModel) -> Result<M, ErrorSpec>)
    requires
        a.location == b.location,
        lookup(a, key) == lookup(b, key),
    ensures
        field(a, key, conv) == field(b, key, conv),
        optional_field(a, key, conv) == optional_field(b, key, conv),
{
}

/// Reading a camera looks only at the keys that `asked_keys` lists for it:
/// two typed maps of the same name that start at the same place and hold
/// the same values under those keys read the same, so a key reported as
/// unused cannot change what is read.
pub proof fn lemma_camera_reads_asked_keys(name: Seq<char>, a: MapModel, b: MapModel, ua: Seq<Seq<char>>, ub: Seq<Seq<char>>)
    requires
        agree_on_keys(a, b, asked_keys(Role::Camera, name, a)),
    ensures
        camera_of(RawModel::TypedMap(name, a, ua)) == camera_of(RawModel::TypedMap(name, b, ub)),
{
    let ks = asked_keys(Role::Camera, name, a);
    assert(lookup(a, ks[0]) == lookup(b, ks[0]));
    assert(lookup(a, ks[1]) == lookup(b, ks[1]));
    assert(lookup(a, ks[2]) == lookup(b, ks[2]));
    assert(lookup(a, ks[3]) == lookup(b, ks[3]));
    assert(lookup(a, ks[4]) == lookup(b, ks[4]));
    assert(lookup(a, ks[5]) == lookup(b, ks[5]));
    lemma_field_frame(a, b, "film"@, as_film());
    lemma_field_frame(a, b, "origin"@, as_point());
    lemma_field_frame(a, b, "target"@, as_point());
    lemma_field_frame(a, b, "up"@, as_vector());
    lemma_field_frame(a, b, "lens_radius"@, as_number());
    lemma_field_frame(a, b, "focal_distance"@, as_number());
    if name == "Perspective"@ {
        assert(lookup(a, ks[6]) == lookup(b, ks[6]));
        lemma_field_frame(a, b, "fov"@, as_number());
    }
}

/// Reading a light looks only at the keys that `asked_keys` lists for it.
pub proof fn lemma_light_reads_asked_keys(name: Seq<char>, a: MapModel, b: MapModel, ua: Seq<Seq<char>>, ub: Seq<Seq<char>>)
    requires
        agree_on_keys(a, b, asked_keys(Role::Light, name, a)),
    ensures
        light_of(RawModel::TypedMap(name, a, ua)) == light_of(RawModel::TypedMap(name, b, ub)),
{
    let ks = asked_keys(Role::Light, name, a);
    if name == "Point"@ {
        assert(lookup(a, ks[0]) == lookup(b, ks[0]));
        assert(lookup(a, ks[1]) == lookup(b, ks[1]));
        lemma_field_frame(a, b, "origin"@, as_point());
        lemma_field_frame(a, b, "intensity"@, as_color());
    } else if name == "Distant"@ {
        assert(lookup(a, ks[0]) == lookup(b, ks[0]));
        assert(lookup(a, ks[1]) == lookup(b, ks[1]));
        lemma_field_frame(a, b, "direction"@, as_vector());
        lemma_field_frame(a, b, "intensity"@, as_color());
    } else if name == "Infinite"@ {
        assert(lookup(a, ks[0]) == lookup(b, ks[0]));
        lemma_field_frame(a, b, "intensity"@, as_color());
    }
}

proof fn lemma_matte_reads_asked_keys(a: MapModel, b: MapModel, ua: Seq<Seq<char>>, ub: Seq<Seq<char>>)
    requires
        agree_on_keys(a, b, asked_keys(Role::Material, "Matte"@, a)),
    ensures
        material_of(RawModel::TypedMap("Matte"@, a, ua)) == material_of(RawModel::TypedMap("Matte"@, b, ub)),
{
    reveal_strlit("Matte");
    reveal_strlit("Glass");
    reveal_strlit("Plastic");
    reveal_strlit("Metal");
    let ks = asked_keys(Role::Material, "Matte"@, a);
    assert(lookup(a, ks[0]) == lookup(b, ks[0]));
    lemma_field_frame(a, b, "reflectance"@, as_color_texture());
    assert(lookup(a, ks[1]) == lookup(b, ks[1]));
    lemma_field_frame(a, b, "sigma"@, as_number_texture());
}

proof fn lemma_glass_reads_asked_keys(a: MapModel, b: MapModel, ua: Seq<Seq<char>>, ub: Seq<Seq<char>>)
    requires
        agree_on_keys(a, b, asked_keys(Role::Material, "Glass"@, a)),
    ensures
        material_of(RawModel::TypedMap("Glass"@, a, ua)) == material_of(RawModel::TypedMap("Glass"@, b, ub)),
{
    reveal_strlit("Matte");
    reveal_strlit("Glass");
    reveal_strlit("Plastic");
    reveal_strlit("Metal");
    let ks = asked_keys(Role::Material, "Glass"@, a);
    assert(lookup(a, ks[0]) == lookup(b, ks[0]));
    lemma_field_frame(a, b, "reflectance"@, as_color_texture());
    assert(lookup(a, ks[1]) == lookup(b, ks[1]));
    lemma_field_frame(a, b, "transmittance"@, as_color_texture());
    assert(lookup(a, ks[2]) == lookup(b, ks[2]));
    lemma_field_frame(a, b, "eta"@, as_number());
}

proof fn lemma_plastic_reads_asked_keys(a: MapModel, b: MapModel, ua: Seq<Seq<char>>, ub: Seq<Seq<char>>)
    requires
        agree_on_keys(a, b, asked_keys(Role::Material, "Plastic"@, a)),
    ensures
        material_of(RawModel::TypedMap("Plastic"@, a, ua)) == material_of(RawModel::TypedMap("Plastic"@, b, ub)),
{
    reveal_strlit("Matte");
    reveal_strlit("Glass");
    reveal_strlit("Plastic");
    reveal_strlit("Metal");
    let ks = asked_keys(Role::Material, "Plastic"@, a);
    assert(lookup(a, ks[0]) == lookup(b, ks[0]));
    lemma_field_frame(a, b, "diffuse"@, as_color_texture());
    assert(lookup(a, ks[1]) == lookup(b, ks[1]));
    lemma_field_frame(a, b, "specular"@, as_color_texture());
    assert(lookup(a, ks[2]) == lookup(b, ks[2]));
    lemma_field_frame(a, b, "roughness"@, as_number_texture());
}

proof fn lemma_metal_reads_asked_keys(a: MapModel, b: MapModel, ua: Seq<Seq<char>>, ub: Seq<Seq<char>>)
    requires
        agree_on_keys(a, b, asked_keys(Role::Material, "Metal"@, a)),
    ensures
        material_of(RawModel::TypedMap("Metal"@, a, ua)) == material_of(RawModel::TypedMap("Metal"@, b, ub)),
{
    reveal_strlit("Matte");
    reveal_strlit("Glass");
    reveal_strlit("Plastic");
    reveal_strlit("Metal");
    let ks = asked_keys(Role::Material, "Metal"@, a);
    assert(lookup(a, ks[0]) == lookup(b, ks[0]));
    lemma_field_frame(a, b, "eta"@, as_color_texture());
    assert(lookup(a, ks[1]) == lookup(b, ks[1]));
    lemma_field_frame(a, b, "k"@, as_color_texture());
}

/// Reading a material looks only at the keys that `asked_keys` lists for it.
pub proof fn lemma_material_reads_asked_keys(name: Seq<char>, a: MapModel, b: MapModel, ua: Seq<Seq<char>>, ub: Seq<Seq<char>>)
    requires
        agree_on_keys(a, b, asked_keys(Role::Material, name, a)),
    ensures
        material_of(RawModel::TypedMap(name, a, ua)) == material_of(RawModel::TypedMap(name, b, ub)),
{
    if name == "Matte"@ {
        lemma_matte_reads_asked_keys(a, b, ua, ub);
    } else if name == "Glass"@ {
        lemma_glass_reads_asked_keys(a, b, ua, ub);
    } else if name == "Plastic"@ {
        lemma_plastic_reads_asked_keys(a, b, ua, ub);
    } else if name == "Metal"@ {
        lemma_metal_reads_asked_keys(a, b, ua, ub);
    }
}

/// Reading a shape looks only at the keys that `asked_keys` lists for it.
pub proof fn lemma_shape_reads_asked_keys(name: Seq<char>, a: MapModel, b: MapModel, ua: Seq<Seq<char>>, ub: Seq<Seq<char>>)
    requires
        agree_on_keys(a, b, asked_keys(Role::Shape, name, a)),
    ensures
        shape_of(RawModel::TypedMap(name, a, ua)) == shape_of(RawModel::TypedMap(name, b, ub)),
{
    let ks = asked_keys(Role::Shape, name, a);
    if name == "Sphere"@ {
        assert(lookup(a, ks[0]) == lookup(b, ks[0]));
        assert(lookup(a, ks[1]) == lookup(b, ks[1]));
        lemma_field_frame(a, b, "origin"@, as_point());
        lemma_field_frame(a, b, "radius"@, as_number());
    } else if name == "Triangle"@ {
        assert(lookup(a, ks[0]) == lookup(b, ks[0]));
        assert(lookup(a, ks[1]) == lookup(b, ks[1]));
        assert(lookup(a, ks[2]) == lookup(b, ks[2]));
        lemma_field_frame(a, b, "v0"@, as_point());
        lemma_field_frame(a, b, "v1"@, as_point());
        lemma_field_frame(a, b, "v2"@, as_point());
    } else if name == "Disk"@ {
        assert(lookup(a, ks[0]) == lookup(b, ks[0]));
        assert(lookup(a, ks[1]) == lookup(b, ks[1]));
        assert(lookup(a, ks[2]) == lookup(b, ks[2]));
        assert(lookup(a, ks[3]) == lookup(b, ks[3]));
        assert(lookup(a, ks[4]) == lookup(b, ks[4]));
        lemma_field_frame(a, b, "origin"@, as_point());
        lemma_field_frame(a, b, "rotate_x"@, as_number());
        lemma_field_frame(a, b, "rotate_y"@, as_number());
        lemma_field_frame(a, b, "radius"@, as_number());
        lemma_field_frame(a, b, "inner_radius"@, as_number());
    }
}

/// Reading a checkerboard texture looks only at the keys that `asked_keys`
/// lists for a texture, for the values that a texture of colors or of
/// numbers reads.
pub proof fn lemma_texture_reads_asked_keys<M>(
    name: Seq<char>,
    a: MapModel,
    b: MapModel,
    ua: Seq<Seq<char>>,
    ub: Seq<Seq<char>>,
    conv: spec_fn(RawModel) -> Result<M, ErrorSpec>,
)
    requires
        agree_on_keys(a, b, asked_keys(Role::Texture, name, a)),
        conv(RawModel::TypedMap(name, a, ua)) is Err,
        conv(RawModel::TypedMap(name, b, ub)) is Err,
    ensures
        texture_of(RawModel::TypedMap(name, a, ua), conv) == texture_of(RawModel::TypedMap(name, b, ub), conv),
{
    let ks = asked_keys(Role::Texture, name, a);
    if name == "Checkerboard"@ {
        assert(lookup(a, ks[0]) == lookup(b, ks[0]));
        assert(lookup(a, ks[1]) == lookup(b, ks[1]));
        assert(lookup(a, ks[2]) == lookup(b, ks[2]));
        lemma_field_frame(a, b, "a"@, conv);
        lemma_field_frame(a, b, "b"@, conv);
        lemma_field_frame(a, b, "scale"@, as_number());
    }
}

/// Reading a primitive looks only at the keys that `asked_keys` lists for
/// it, whatever materials and shapes its names are resolved among.
pub proof fn lemma_primitive_reads_asked_keys(
    name: Seq<char>,
    a: MapModel,
    b: MapModel,
    materials: Seq<Seq<char>>,
    shapes: Seq<Seq<char>>,
)
    requires
        agree_on_keys(a, b, asked_keys(Role::Primitive, name, a)),
    ensures
        primitive_of(name, a, materials, shapes) == primitive_of(name, b, materials, shapes),
{
    let ks = asked_keys(Role::Primitive, name, a);
    if name == "Shape"@ {
        assert(lookup(a, ks[0]) == lookup(b, ks[0]));
        assert(lookup(a, ks[1]) == lookup(b, ks[1]));
        lemma_field_frame(a, b, "shape"@, as_string());
        lemma_field_frame(a, b, "emittance"@, as_color());
        if key_index(a.entries, "emittance"@, 0) is None {
            assert(lookup(a, ks[2]) == lookup(b, ks[2]));
            lemma_field_frame(a, b, "material"@, as_string());
        }
    } else if name == "Mesh"@ {
        assert(lookup(a, ks[0]) == lookup(b, ks[0]));
        assert(lookup(a, ks[1]) == lookup(b, ks[1]));
        lemma_field_frame(a, b, "file_name"@, as_string());
        lemma_field_frame(a, b, "fallback_material"@, as_string());
    }
}

} // verus!
