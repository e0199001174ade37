use rtlib::filter::FilterType;
use rtlib::lights::LightType;
use rtlib::materials::MaterialType;
use rtlib::shapes::{
    check_mesh, GeometryIntersection, Mesh, MeshError, Primitives, ShapeIntersection, ShapeType,
    Triangle, Triangles, HORIZON,
};

#[derive(Clone, Copy, Debug, PartialEq)]
struct Sphere {
    center: [f32; 3],
    radius: f32,
}

impl Sphere {
    fn new(center: [f32; 3], radius: f32) -> Self {
        Self { center, radius }
    }
}

#[test]
fn test_shapes_add() {
    let mut primitives = Primitives::<Sphere>::new();
    let sphere1 = Sphere::new([0.0, 0.0, 0.0], 1.0);
    let sphere2 = Sphere::new([1.0, 1.0, 1.0], 2.0);

    primitives.add(sphere1, 0);
    primitives.add(sphere2, 0);

    assert_eq!(primitives.len(), 2);
    assert_eq!(primitives.shape(0).center, [0.0, 0.0, 0.0]);
    assert_eq!(primitives.shape(0).radius, 1.0);
    assert_eq!(primitives.shape(1).center, [1.0, 1.0, 1.0]);
    assert_eq!(primitives.shape(1).radius, 2.0);
}

#[test]
fn primitives_keep_their_materials() {
    let mut primitives = Primitives::<u8>::new();
    primitives.add(b'a', 7);
    primitives.add(b'b', 9);
    assert_eq!(7, primitives.material(&ShapeIntersection { t: 1, shape_id: 0 }));
    assert_eq!(9, primitives.material(&ShapeIntersection { t: 1, shape_id: 1 }));
}

#[test]
fn triangles_get_handles_mesh_by_mesh() {
    let mut table = Triangles::<&str>::new();
    table.add("first", 2, 5);
    table.add("empty", 0, 6);
    table.add("third", 3, 7);
    assert_eq!(5, table.len());
    let handles: Vec<Triangle> = (0..5).map(|i| table.triangle(i)).collect();
    assert_eq!(
        vec![
            Triangle { mesh_id: 0, triangle_id: 0 },
            Triangle { mesh_id: 0, triangle_id: 1 },
            Triangle { mesh_id: 2, triangle_id: 0 },
            Triangle { mesh_id: 2, triangle_id: 1 },
            Triangle { mesh_id: 2, triangle_id: 2 }
        ],
        handles
    );
    assert_eq!("first", *table.mesh(1));
    assert_eq!("third", *table.mesh(2));
    assert_eq!(5, table.material(&ShapeIntersection { t: 3, shape_id: 0 }));
    assert_eq!(7, table.material(&ShapeIntersection { t: 3, shape_id: 4 }));
}

#[test]
fn mesh_indices_are_checked() {
    assert_eq!(Ok(1), check_mesh(3, &[0, 1, 2]));
    assert_eq!(Ok(2), check_mesh(4, &[0, 1, 2, 2, 1, 3]));
    assert_eq!(Ok(0), check_mesh(0, &[]));
    assert_eq!(Err(MeshError::IncompleteTriangle), check_mesh(3, &[0, 1]));
    assert_eq!(Err(MeshError::IncompleteTriangle), check_mesh(3, &[0, 1, 2, 0]));
    assert_eq!(Err(MeshError::IncompleteTriangle), check_mesh(1, &[5]));
    assert_eq!(Err(MeshError::IndexOutOfRange(2)), check_mesh(2, &[0, 1, 2]));
    assert_eq!(Err(MeshError::IndexOutOfRange(1)), check_mesh(3, &[0, 9, 9]));
    assert_eq!(Err(MeshError::IndexOutOfRange(0)), check_mesh(0, &[0, 0, 0]));
}

#[test]
fn closest_candidate_of_two_tables() {
    let hit = |t: f32, id: usize| Some(ShapeIntersection { t: t.to_bits(), shape_id: id });
    let s = hit(2.0, 3).unwrap();
    let t = hit(1.5, 4).unwrap();
    assert_eq!(GeometryIntersection::Miss, GeometryIntersection::closest(None, None));
    assert_eq!(GeometryIntersection::Sphere(s), GeometryIntersection::closest(Some(s), None));
    assert_eq!(GeometryIntersection::Triangle(t), GeometryIntersection::closest(None, Some(t)));
    assert_eq!(GeometryIntersection::Triangle(t), GeometryIntersection::closest(Some(s), Some(t)));
    assert_eq!(
        GeometryIntersection::Sphere(s),
        GeometryIntersection::closest(Some(s), hit(2.5, 4))
    );
    // a tie goes to the sphere
    assert_eq!(
        GeometryIntersection::Sphere(s),
        GeometryIntersection::closest(Some(s), hit(2.0, 4))
    );
    // distance zero and distances from the horizon on do not count
    assert_eq!(GeometryIntersection::Miss, GeometryIntersection::closest(hit(0.0, 1), hit(1e38, 2)));
    assert_eq!(
        GeometryIntersection::Triangle(t),
        GeometryIntersection::closest(hit(0.0, 1), Some(t))
    );
    assert_eq!(
        GeometryIntersection::Miss,
        GeometryIntersection::closest(
            Some(ShapeIntersection { t: HORIZON, shape_id: 0 }),
            Some(ShapeIntersection { t: u32::MAX, shape_id: 0 })
        )
    );
    assert_eq!(
        GeometryIntersection::Sphere(ShapeIntersection { t: HORIZON - 1, shape_id: 0 }),
        GeometryIntersection::closest(Some(ShapeIntersection { t: HORIZON - 1, shape_id: 0 }), None)
    );
}

#[test]
fn kinds_are_distinct() {
    assert_ne!(ShapeType::Sphere, ShapeType::Mesh);
    assert_ne!(MaterialType::Matte, MaterialType::EmissiveMatte);
    assert_eq!(LightType::Point, LightType::Point);
    let filters = [
        FilterType::Box,
        FilterType::Triangle,
        FilterType::Gaussian,
        FilterType::Mitchell,
        FilterType::LanczosSinc,
    ];
    for (i, a) in filters.iter().enumerate() {
        for (j, b) in filters.iter().enumerate() {
            assert_eq!(i == j, a == b);
        }
    }
}

#[test]
fn kinds_by_their_tags() {
    assert_eq!(Some(ShapeType::Sphere), ShapeType::from_tag("sphere"));
    assert_eq!(Some(ShapeType::Mesh), ShapeType::from_tag("mesh"));
    assert_eq!(None, ShapeType::from_tag("Sphere"));
    assert_eq!(None, ShapeType::from_tag(""));
    assert_eq!(Some(MaterialType::Matte), MaterialType::from_tag("matte"));
    assert_eq!(Some(MaterialType::EmissiveMatte), MaterialType::from_tag("emissive-matte"));
    assert_eq!(None, MaterialType::from_tag("emissive"));
    assert_eq!(Some(LightType::Point), LightType::from_tag("point"));
    assert_eq!(None, LightType::from_tag("points"));
    assert_eq!(Some(FilterType::Box), FilterType::from_tag("box"));
    assert_eq!(Some(FilterType::Triangle), FilterType::from_tag("triangle"));
    assert_eq!(Some(FilterType::Gaussian), FilterType::from_tag("gaussian"));
    assert_eq!(Some(FilterType::Mitchell), FilterType::from_tag("mitchell"));
    assert_eq!(Some(FilterType::LanczosSinc), FilterType::from_tag("lanczos"));
    assert_eq!(None, FilterType::from_tag("sinc"));
}

#[test]
fn mesh_hands_out_its_corners() {
    let vertices = vec![[-1.0f32, -1.0, -2.0], [1.0, -1.0, -2.0], [0.0, 1.0, -2.0], [0.0, 0.0, 0.0]];
    let mesh = Mesh::new(vertices.clone(), vec![0, 1, 2, 2, 1, 3]).ok().unwrap();
    assert_eq!(2, mesh.triangle_count());
    assert_eq!(4, mesh.vertex_count());
    assert_eq!((vertices[0], vertices[1], vertices[2]), mesh.corners(0));
    assert_eq!((vertices[2], vertices[1], vertices[3]), mesh.corners(1));
}

#[test]
fn mesh_is_checked_when_it_is_made() {
    assert_eq!(
        Some(MeshError::IncompleteTriangle),
        Mesh::new(vec![1u8, 2, 3], vec![0, 1]).err()
    );
    assert_eq!(
        Some(MeshError::IndexOutOfRange(2)),
        Mesh::new(vec![1u8, 2, 3], vec![0, 1, 3]).err()
    );
    assert_eq!(
        Some(MeshError::IncompleteTriangle),
        Mesh::new(vec![1u8], vec![7]).err()
    );
    assert!(Mesh::<u8>::new(Vec::new(), Vec::new()).is_ok());
}

#[test]
fn mesh_moves_every_vertex() {
    let mut mesh = Mesh::new(vec![1i32, 2, 3], vec![2, 1, 0]).ok().unwrap();
    mesh.transform(|v: i32| 10 * v);
    assert_eq!((30, 20, 10), mesh.corners(0));
    assert_eq!(1, mesh.triangle_count());
}
