use rtlib::color::TMOType;
use rtlib::json::{
    parse_camera, parse_global, parse_indices, parse_integrator, parse_light, parse_lights,
    parse_material, parse_materials, parse_sampler, parse_scene, parse_shape, parse_shapes,
    parse_transformations, parse_vertices, read_count, read_flag, read_real, read_resolution,
    read_text, read_triple, Json, Number, Real, SceneError, TransformRecord, Triple,
};
use rtlib::lights::LightType;
use rtlib::materials::MaterialType;
use rtlib::scene::{IntegratorType, Sampler};
use rtlib::shapes::ShapeType;

fn num(v: f64) -> Json {
    let unsigned = if v >= 0.0 && v.fract() == 0.0 && v < 1.8e19 { Some(v as u64) } else { None };
    Json::Number(Number { unsigned, bits: v.to_bits() })
}

fn as_real(v: f64) -> Real {
    Real { bits: v.to_bits() }
}

fn triple(x: f64, y: f64, z: f64) -> Triple {
    Triple { x: as_real(x), y: as_real(y), z: as_real(z) }
}

fn text(s: &str) -> Json {
    Json::Text(s.to_string())
}

fn list(items: Vec<Json>) -> Json {
    Json::Array(items)
}

fn three(x: f64, y: f64, z: f64) -> Json {
    list(vec![num(x), num(y), num(z)])
}

fn object(members: Vec<(&str, Json)>) -> Json {
    Json::Object(members.into_iter().map(|(k, v)| (k.to_string(), v)).collect())
}

#[test]
fn json_members_and_elements() {
    let doc = object(vec![("a", num(1.0)), ("b", Json::Null), ("a", num(2.0))]);
    assert!(matches!(doc.member("a"), Some(Json::Number(n)) if n.unsigned == Some(1)));
    assert!(matches!(doc.member("b"), Some(Json::Null)));
    assert!(doc.member("c").is_none());
    assert!(doc.member("").is_none());
    assert!(num(1.0).member("a").is_none());
    let items = list(vec![num(5.0), text("x")]);
    assert!(matches!(items.element(1), Some(Json::Text(s)) if s == "x"));
    assert!(items.element(2).is_none());
    assert!(doc.element(0).is_none());
}

#[test]
fn json_fields_by_kind() {
    assert_eq!(Ok(7), read_count(Some(&num(7.0)), "n"));
    assert_eq!(Err(SceneError::Field("n")), read_count(Some(&num(7.5)), "n"));
    assert_eq!(Err(SceneError::Field("n")), read_count(Some(&num(-1.0)), "n"));
    assert_eq!(Err(SceneError::Field("n")), read_count(Some(&text("7")), "n"));
    assert_eq!(Err(SceneError::Field("n")), read_count(None, "n"));
    assert_eq!(Ok(true), read_flag(Some(&Json::Bool(true)), "f"));
    assert_eq!(Err(SceneError::Field("f")), read_flag(Some(&num(1.0)), "f"));
    assert_eq!(Ok(&"out.png".to_string()), read_text(Some(&text("out.png")), "t"));
    assert_eq!(Err(SceneError::Field("t")), read_text(Some(&Json::Null), "t"));
    assert_eq!(Ok(as_real(0.25)), read_real(Some(&num(0.25)), "r"));
    assert_eq!(Ok(as_real(3.0)), read_real(Some(&num(3.0)), "r"));
    assert_eq!(Err(SceneError::Field("r")), read_real(Some(&Json::Bool(false)), "r"));
}

#[test]
fn json_triples_have_three_numbers() {
    assert_eq!(Ok(triple(1.0, 2.5, -3.0)), read_triple(Some(&three(1.0, 2.5, -3.0)), "p"));
    assert_eq!(Err(SceneError::Field("p")), read_triple(Some(&list(vec![num(1.0), num(2.0)])), "p"));
    assert_eq!(
        Err(SceneError::ExpectedThree("p")),
        read_triple(Some(&list(vec![num(1.0), num(2.0), num(3.0), num(4.0)])), "p")
    );
    assert_eq!(
        Ok(triple(1.0, 2.0, 3.0)),
        read_triple(Some(&list(vec![num(1.0), num(2.0), num(3.0), Json::Null])), "p")
    );
    assert_eq!(Err(SceneError::Field("p")), read_triple(Some(&num(1.0)), "p"));
    assert_eq!(Err(SceneError::Field("p")), read_triple(None, "p"));
    assert_eq!(
        Err(SceneError::Field("p")),
        read_triple(Some(&list(vec![num(1.0), text("2"), num(3.0)])), "p")
    );
}

#[test]
fn json_resolution() {
    let size = read_resolution(Some(&list(vec![num(16.0), num(9.0)]))).unwrap();
    assert_eq!((16, 9), (size.width, size.height));
    assert_eq!(
        Err(SceneError::Field("resolution height")),
        read_resolution(Some(&list(vec![num(16.0)])))
    );
    assert_eq!(
        Err(SceneError::Field("resolution width")),
        read_resolution(Some(&list(vec![text("16"), num(9.0)])))
    );
}

#[test]
fn json_global_section() {
    let section = object(vec![
        ("resolution", list(vec![num(16.0), num(16.0)])),
        ("spp", num(4.0)),
        ("tonemap", text("gamma")),
        ("output", text("scene.png")),
        ("nthreads", num(2.0)),
    ]);
    let global = parse_global(&section).ok().unwrap();
    assert_eq!(Some((16, 16)), global.resolution.map(|r| (r.width, r.height)));
    assert_eq!(Some(4), global.spp);
    assert_eq!(Some(TMOType::Gamma), global.tonemap);
    assert_eq!(Some(&"scene.png".to_string()), global.output);
    assert_eq!(Some(2), global.nthreads);

    let nothing = object(vec![]);
    let empty = parse_global(&nothing).ok().unwrap();
    assert!(empty.resolution.is_none() && empty.spp.is_none() && empty.tonemap.is_none());
    assert!(empty.output.is_none() && empty.nthreads.is_none());

    let unknown = object(vec![("tonemap", text("filmic"))]);
    assert_eq!(Some(SceneError::UnknownTag("tonemap")), parse_global(&unknown).err());
    let wrong = object(vec![("spp", text("4")), ("tonemap", text("filmic"))]);
    assert_eq!(Some(SceneError::Field("spp")), parse_global(&wrong).err());
    let wrong = object(vec![("nthreads", num(0.5))]);
    assert_eq!(Some(SceneError::Field("nthreads")), parse_global(&wrong).err());
}

#[test]
fn json_sampler_section() {
    assert!(parse_sampler(&object(vec![("seed", num(1.0))])).ok().unwrap().is_none());
    let independent =
        object(vec![("type", text("independent")), ("seed", num(1.0)), ("pixelsamples", num(8.0))]);
    let record = parse_sampler(&independent).ok().unwrap().unwrap();
    assert!(matches!(record.sampler, Sampler::Random(ref s) if s.seed == 1));
    assert_eq!(Some(8), record.pixelsamples);
    let by_default = parse_sampler(&object(vec![("type", text("independent"))])).ok().unwrap();
    assert!(matches!(by_default.unwrap().sampler, Sampler::Random(ref s) if s.seed == 1234567890));

    let stratified = object(vec![
        ("type", text("stratified")),
        ("xsamples", num(2.0)),
        ("jitter", Json::Bool(false)),
    ]);
    let record = parse_sampler(&stratified).ok().unwrap().unwrap();
    match record.sampler {
        Sampler::Stratified(s) => {
            assert_eq!((1234567890, 2, 4, false), (s.seed, s.xsamples, s.ysamples, s.jitter))
        }
        _ => panic!("a stratified sampler was asked for"),
    }
    assert_eq!(None, record.pixelsamples);

    let unknown = object(vec![("type", text("halton"))]);
    assert_eq!(Some(SceneError::UnknownTag("sampler->type")), parse_sampler(&unknown).err());
    let wrong = object(vec![("type", num(1.0))]);
    assert_eq!(Some(SceneError::Field("sampler->type")), parse_sampler(&wrong).err());
    let wrong = object(vec![("type", text("stratified")), ("jitter", num(1.0))]);
    assert_eq!(Some(SceneError::Field("sampler->jitter")), parse_sampler(&wrong).err());
}

#[test]
fn json_integrator_section() {
    assert_eq!(Ok(None), parse_integrator(&object(vec![])));
    let ao = object(vec![
        ("type", text("ambient-occlusion")),
        ("cossample", Json::Bool(true)),
        ("maxdistance", num(1e30)),
        ("maxdepth", text("not read")),
    ]);
    let record = parse_integrator(&ao).unwrap().unwrap();
    assert_eq!(IntegratorType::AmbientOcclusion, record.kind);
    assert_eq!((Some(true), Some(as_real(1e30)), None), (record.cossample, record.maxdistance, record.maxdepth));
    let walk = object(vec![("type", text("random-walk")), ("maxdepth", num(7.0))]);
    let record = parse_integrator(&walk).unwrap().unwrap();
    assert_eq!((IntegratorType::RandomWalk, Some(7)), (record.kind, record.maxdepth));
    let direct = parse_integrator(&object(vec![("type", text("direct-lighting"))])).unwrap();
    assert_eq!(IntegratorType::DirectLighting, direct.unwrap().kind);
    let reserved = parse_integrator(&object(vec![("type", text("path-tracer"))])).unwrap();
    assert_eq!(IntegratorType::PathTracer, reserved.unwrap().kind);
    assert_eq!(
        Err(SceneError::UnknownTag("integrator->type")),
        parse_integrator(&object(vec![("type", text("photon-map"))]))
    );
    assert_eq!(
        Err(SceneError::Field("integrator->maxdepth")),
        parse_integrator(&object(vec![("type", text("random-walk")), ("maxdepth", num(0.5))]))
    );
}

#[test]
fn json_camera_section() {
    let section = object(vec![
        ("eye", three(0.0, 0.0, 0.0)),
        ("lookat", three(0.0, 0.0, -1.0)),
        ("up", three(0.0, 1.0, 0.0)),
        ("fov", num(45.0)),
    ]);
    let camera = parse_camera(&section).unwrap();
    assert_eq!(Some(triple(0.0, 0.0, -1.0)), camera.lookat);
    assert_eq!(Some(as_real(45.0)), camera.fov);
    assert_eq!((None, None), (camera.near, camera.far));
    assert_eq!(
        Err(SceneError::ExpectedThree("camera->up")),
        parse_camera(&object(vec![("up", list(vec![num(0.0), num(1.0), num(0.0), num(0.0)]))]))
    );
}

#[test]
fn json_materials_and_lights() {
    let matte = object(vec![
        ("name", text("m")),
        ("type", text("matte")),
        ("diffuse", three(0.5, 0.5, 0.5)),
    ]);
    let record = parse_material(&matte).ok().unwrap();
    assert_eq!("m", record.name.as_str());
    assert_eq!(MaterialType::Matte, record.typ);
    assert_eq!(triple(0.5, 0.5, 0.5), record.diffuse);
    assert_eq!(None, record.emission);
    let nameless = object(vec![("type", text("matte")), ("diffuse", three(0.5, 0.5, 0.5))]);
    assert_eq!(Some(SceneError::Field("material->name")), parse_material(&nameless).err());
    let colorless = object(vec![("name", text("m")), ("type", text("matte"))]);
    assert_eq!(Some(SceneError::Field("material->diffuse")), parse_material(&colorless).err());
    let unknown = object(vec![("name", text("m")), ("type", text("glass"))]);
    assert_eq!(Some(SceneError::UnknownTag("material->type")), parse_material(&unknown).err());

    let both = list(vec![
        object(vec![("name", text("a")), ("type", text("matte")), ("diffuse", three(1.0, 0.0, 0.0))]),
        object(vec![
            ("name", text("b")),
            ("type", text("emissive-matte")),
            ("diffuse", three(0.0, 0.0, 0.0)),
            ("emission", three(5.0, 5.0, 5.0)),
        ]),
    ]);
    let records = parse_materials(&both).ok().unwrap();
    assert_eq!(2, records.len());
    assert_eq!(("a", "b"), (records[0].name.as_str(), records[1].name.as_str()));
    assert_eq!(Some(triple(5.0, 5.0, 5.0)), records[1].emission);
    assert_eq!(Some(SceneError::ExpectedList("materials")), parse_materials(&matte).err());
    let second_wrong = list(vec![
        object(vec![("name", text("a")), ("type", text("matte")), ("diffuse", three(1.0, 0.0, 0.0))]),
        object(vec![("name", text("b")), ("type", text("glass"))]),
        object(vec![("type", text("matte"))]),
    ]);
    assert_eq!(
        Some(SceneError::UnknownTag("material->type")),
        parse_materials(&second_wrong).err()
    );

    let light = object(vec![
        ("type", text("point")),
        ("intensity", three(10.0, 10.0, 10.0)),
        ("position", three(2.0, 2.0, 0.0)),
    ]);
    let record = parse_light(&light).unwrap();
    assert_eq!(LightType::Point, record.typ);
    assert_eq!(triple(2.0, 2.0, 0.0), record.position);
    assert_eq!(Ok(vec![record, record]), parse_lights(&list(vec![
        object(vec![
            ("type", text("point")),
            ("intensity", three(10.0, 10.0, 10.0)),
            ("position", three(2.0, 2.0, 0.0)),
        ]),
        object(vec![
            ("type", text("point")),
            ("intensity", three(10.0, 10.0, 10.0)),
            ("position", three(2.0, 2.0, 0.0)),
        ]),
    ])));
    assert_eq!(Ok(Vec::new()), parse_lights(&list(vec![])));
    assert_eq!(
        Err(SceneError::UnknownTag("light->type")),
        parse_light(&object(vec![("type", text("spot"))]))
    );
    assert_eq!(
        Err(SceneError::Field("light->position")),
        parse_light(&object(vec![("type", text("point")), ("intensity", three(1.0, 1.0, 1.0))]))
    );
}

#[test]
fn json_shapes() {
    let sphere = object(vec![
        ("type", text("sphere")),
        ("material", text("m")),
        ("position", three(0.0, 0.0, -2.0)),
        ("radius", num(0.5)),
    ]);
    let record = parse_shape(&sphere).ok().unwrap();
    assert_eq!(ShapeType::Sphere, record.typ);
    assert_eq!("m", record.material.as_str());
    assert_eq!(Some(triple(0.0, 0.0, -2.0)), record.position);
    assert_eq!(Some(as_real(0.5)), record.radius);
    assert!(record.transformations.is_none() && record.vertices.is_none());

    let mesh = object(vec![
        ("type", text("mesh")),
        ("material", text("white")),
        ("vertices", list(vec![three(-1.0, -1.0, -2.0), three(1.0, -1.0, -2.0), three(0.0, 1.0, -2.0)])),
        ("indices", list(vec![num(0.0), num(1.0), num(2.0)])),
        ("transformations", list(vec![
            object(vec![("type", text("translate")), ("delta", three(1.0, 2.0, 3.0))]),
            object(vec![("type", text("scale")), ("delta", three(2.0, 2.0, 2.0))]),
        ])),
    ]);
    let record = parse_shape(&mesh).ok().unwrap();
    assert_eq!(ShapeType::Mesh, record.typ);
    assert_eq!(
        Ok(vec![triple(-1.0, -1.0, -2.0), triple(1.0, -1.0, -2.0), triple(0.0, 1.0, -2.0)]),
        parse_vertices(record.vertices.unwrap())
    );
    assert_eq!(Ok(vec![0, 1, 2]), parse_indices(record.indices.unwrap()));
    assert_eq!(
        Ok(vec![
            TransformRecord::Translate(triple(1.0, 2.0, 3.0)),
            TransformRecord::Scale(triple(2.0, 2.0, 2.0))
        ]),
        parse_transformations(record.transformations.unwrap())
    );

    let one = list(vec![
        object(vec![("type", text("sphere")), ("material", text("m")), ("radius", num(1.0))]),
    ]);
    let records = parse_shapes(&one);
    assert_eq!(1, records.ok().unwrap().len());

    let no_radius = object(vec![("type", text("sphere")), ("material", text("m"))]);
    assert_eq!(Some(SceneError::Field("shape->radius")), parse_shape(&no_radius).err());
    let no_material = object(vec![("type", text("sphere")), ("radius", num(1.0))]);
    assert_eq!(Some(SceneError::Field("shape->material")), parse_shape(&no_material).err());
    let no_indices = object(vec![
        ("type", text("mesh")),
        ("material", text("m")),
        ("vertices", list(vec![])),
    ]);
    assert_eq!(Some(SceneError::Field("shape->indices")), parse_shape(&no_indices).err());
    let unknown = object(vec![("type", text("torus")), ("material", text("m"))]);
    assert_eq!(Some(SceneError::UnknownTag("shape->type")), parse_shape(&unknown).err());
    assert_eq!(
        Err(SceneError::UnknownTag("transformation->type")),
        parse_transformations(&list(vec![object(vec![("type", text("rotate"))])]))
    );
    assert_eq!(Err(SceneError::ExpectedList("transformations")), parse_transformations(&num(1.0)));
    assert_eq!(
        Err(SceneError::Field("shape->indices")),
        parse_indices(&list(vec![num(0.0), num(1.5)]))
    );
    assert_eq!(
        Err(SceneError::Field("shape->vertices")),
        parse_vertices(&list(vec![three(0.0, 0.0, 0.0), num(1.0)]))
    );
}

#[test]
fn json_whole_scene() {
    let document = object(vec![
        ("global", object(vec![("resolution", list(vec![num(16.0), num(16.0)])), ("spp", num(1.0))])),
        ("sampler", object(vec![("type", text("independent")), ("seed", num(1.0))])),
        ("integrator", object(vec![("type", text("direct-lighting"))])),
        ("camera", object(vec![
            ("eye", three(0.0, 0.0, 0.0)),
            ("lookat", three(0.0, 0.0, -1.0)),
            ("up", three(0.0, 1.0, 0.0)),
            ("fov", num(45.0)),
        ])),
        ("materials", list(vec![object(vec![
            ("name", text("m")),
            ("type", text("matte")),
            ("diffuse", three(0.5, 0.5, 0.5)),
        ])])),
        ("shapes", list(vec![object(vec![
            ("type", text("sphere")),
            ("material", text("m")),
            ("position", three(0.0, 0.0, -2.0)),
            ("radius", num(0.5)),
        ])])),
        ("lights", list(vec![object(vec![
            ("type", text("point")),
            ("intensity", three(10.0, 10.0, 10.0)),
            ("position", three(2.0, 2.0, 0.0)),
        ])])),
    ]);
    let scene = parse_scene(&document).ok().unwrap();
    assert_eq!(Some(1), scene.global.as_ref().and_then(|g| g.spp));
    assert!(matches!(scene.sampler.as_ref().map(|s| &s.sampler), Some(Sampler::Random(s)) if s.seed == 1));
    assert_eq!(Some(IntegratorType::DirectLighting), scene.integrator.map(|i| i.kind));
    assert_eq!(Some(as_real(45.0)), scene.camera.and_then(|c| c.fov));
    assert_eq!((1, 1, 1), (scene.materials.len(), scene.shapes.len(), scene.lights.len()));

    let nothing = object(vec![]);
    let empty = parse_scene(&nothing).ok().unwrap();
    assert!(empty.global.is_none() && empty.sampler.is_none() && empty.integrator.is_none());
    assert!(empty.camera.is_none());
    assert_eq!((0, 0, 0), (empty.materials.len(), empty.shapes.len(), empty.lights.len()));
    assert!(parse_scene(&Json::Null).is_ok());

    // of two wrong sections the first is reported
    let wrong = object(vec![
        ("lights", num(1.0)),
        ("materials", text("none")),
    ]);
    assert_eq!(Some(SceneError::ExpectedList("materials")), parse_scene(&wrong).err());
    let wrong = object(vec![
        ("camera", object(vec![("fov", text("wide"))])),
        ("global", object(vec![("spp", text("many"))])),
    ]);
    assert_eq!(Some(SceneError::Field("spp")), parse_scene(&wrong).err());
    let null_sections = object(vec![("global", Json::Null), ("materials", Json::Null)]);
    assert!(parse_scene(&null_sections).is_ok());
}
