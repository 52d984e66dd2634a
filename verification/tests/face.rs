use all_is_cubes::math::{Face, FaceMap, GridVector};

/// The 3x3 linear part of a face matrix, as floating-point rows, with its
/// determinant; the translation column does not affect the determinant of
/// the homogeneous transform.
fn determinant(face: Face, scale: i32) -> f64 {
    let m = face.matrix(scale);
    let (c0, c1, c2) = (m.x, m.y, m.z);
    let a = c0.x as f64;
    let b = c1.x as f64;
    let c = c2.x as f64;
    let d = c0.y as f64;
    let e = c1.y as f64;
    let f = c2.y as f64;
    let g = c0.z as f64;
    let h = c1.z as f64;
    let i = c2.z as f64;
    a * (e * i - f * h) - b * (d * i - f * g) + c * (d * h - e * g)
}

#[test]
fn face_matrix_does_not_scale_or_reflect() {
    for &face in Face::all_six().iter() {
        assert_eq!(1.0, determinant(face, 7));
    }
}

#[test]
fn face_map_values_in_enum_order() {
    let map = FaceMap::generate(|f| f);
    assert_eq!(
        Face::all_seven().to_vec(),
        map.values().iter().copied().copied().collect::<Vec<_>>(),
    )
}

#[test]
fn face_opposites_and_axes() {
    assert_eq!(Face::PX.opposite(), Face::NX);
    assert_eq!(Face::WITHIN.opposite(), Face::WITHIN);
    assert_eq!(Face::NY.axis_number(), 1);
    assert_eq!(Face::PZ.axis_number(), 2);
    assert!(Face::PY.is_positive());
    assert!(!Face::PY.is_negative());
    assert!(Face::NZ.is_negative());
    assert!(!Face::WITHIN.is_positive());
}

#[test]
fn face_cross_matches_vectors() {
    for &a in Face::all_seven().iter() {
        for &b in Face::all_seven().iter() {
            let va = a.normal_vector();
            let vb = b.normal_vector();
            let vc = GridVector {
                x: va.y * vb.z - va.z * vb.y,
                y: va.z * vb.x - va.x * vb.z,
                z: va.x * vb.y - va.y * vb.x,
            };
            assert_eq!(a.cross(b).normal_vector(), vc, "{:?} cross {:?}", a, b);
        }
    }
}
