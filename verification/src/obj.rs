use vstd::prelude::*;

verus! {

/// How a material read from an OBJ file is rendered.
#[derive(PartialEq, Eq, Clone, Copy, Debug)]
pub enum ObjMaterialKind {
    /// Faces become area lights; the fallback material stands in for it.
    Emissive,
    /// A glass whose reflectance and transmittance split the diffuse color.
    Glass,
    /// A metal, for the reflective illumination models 3 to 9.
    Metal,
    /// A plastic, for every other material.
    Plastic,
}

/// The kind of material an OBJ material becomes: an emission (`Ke`) that is
/// not black makes it a light; otherwise a dissolve below 1 makes it glass;
/// otherwise illumination models 3 to 9 make it a metal, and anything else a
/// plastic.
pub open spec fn spec_material_kind(emissive: bool, translucent: bool, illumination_model: Option<u8>) -> ObjMaterialKind {
    if emissive {
        ObjMaterialKind::Emissive
    } else if translucent {
        ObjMaterialKind::Glass
    } else if illumination_model matches Some(m) && 3 <= m <= 9 {
        ObjMaterialKind::Metal
    } else {
        ObjMaterialKind::Plastic
    }
}

/// Picks the kind of an OBJ material, as `spec_material_kind` describes.
/// `emissive` says whether its emission is not black and `translucent`
/// whether its dissolve is below 1.
pub fn material_kind(emissive: bool, translucent: bool, illumination_model: Option<u8>) -> (k: ObjMaterialKind)
    ensures
        k == spec_material_kind(emissive, translucent, illumination_model),
{
    if emissive {
        ObjMaterialKind::Emissive
    } else if translucent {
        ObjMaterialKind::Glass
    } else {
        match illumination_model {
            Some(m) => if 3 <= m && m <= 9 {
                ObjMaterialKind::Metal
            } else {
                ObjMaterialKind::Plastic
            },
            None => ObjMaterialKind::Plastic,
        }
    }
}

/// Groups a mesh's vertex indices into triangles, three at a time; indices
/// left over at the end make no triangle.
pub fn mesh_triangles(indices: &Vec<u32>) -> (triangles: Vec<(usize, usize, usize)>)
    ensures
        triangles@.len() == indices@.len() / 3,
        forall|k: int|
            0 <= k < triangles@.len() ==> #[trigger] triangles@[k] == (
                indices@[3 * k] as usize,
                indices@[3 * k + 1] as usize,
                indices@[3 * k + 2] as usize,
            ),
{
    let mut triangles: Vec<(usize, usize, usize)> = Vec::new();
    let len = indices.len();
    let n = len / 3;
    let mut k: usize = 0;
    while k < n
        invariant
            len == indices@.len(),
            n == indices@.len() / 3,
            k <= n,
            triangles@.len() == k,
            forall|j: int|
                0 <= j < k ==> #[trigger] triangles@[j] == (
                    indices@[3 * j] as usize,
                    indices@[3 * j + 1] as usize,
                    indices@[3 * j + 2] as usize,
                ),
        decreases n - k,
    {
        assert(3 * k + 2 < len) by (nonlinear_arith)
            requires
                k < n,
                n == len / 3,
        ;
        let i = 3 * k;
        triangles.push((indices[i] as usize, indices[i + 1] as usize, indices[i + 2] as usize));
        k += 1;
    }
    triangles
}

} // verus!
