use apache_beam::worker::{Worker, WorkerEndpoints};
use apache_beam::coders::CoderUrnTree;
use apache_beam::elem_types::{DefaultCoder, KV};
use apache_beam::internals::pipeline::{Pipeline, PipelineContext};
use apache_beam::internals::pvalue::{flatten_pvalue, PType, PValue};
use apache_beam::internals::utils::{get_bad_id, get_pcollection_name};
use apache_beam::proto::{Coder, FunctionSpec};
use apache_beam::runners::DirectRunner;
use apache_beam::transforms::impulse::Impulse;
use bytes::Bytes;

fn find<'a, T>(pairs: &'a [(String, T)], key: &str) -> Option<&'a T> {
    pairs.iter().find(|(k, _)| k == key).map(|(_, v)| v)
}

#[test]
fn unique_names_count_up() {
    let mut ctx = PipelineContext::new("ref_".to_string());
    assert_eq!(ctx.create_unique_name("transform".to_string()), "ref_transform_0");
    assert_eq!(ctx.create_unique_name("pc".to_string()), "ref_pc_1");
    assert_eq!(ctx.create_unique_name("pc".to_string()), "ref_pc_2");
}

#[test]
fn new_pipeline_is_empty() {
    let p = Pipeline::new("x".to_string());
    let proto = p.get_proto();
    assert!(proto.components.transforms.is_empty());
    assert!(proto.components.pcollections.is_empty());
    assert!(proto.components.coders.is_empty());
    assert!(proto.root_transform_ids.is_empty());
}

#[test]
fn coder_ids_are_shared_by_equal_coders() {
    let mut p = Pipeline::new("".to_string());
    let bytes = || Coder {
        spec: Some(FunctionSpec { urn: "beam:coder:bytes:v1".to_string(), payload: vec![] }),
        component_coder_ids: vec![],
    };
    assert_eq!(p.get_coder_id(bytes()), "coder_1");
    assert_eq!(p.get_coder_id(bytes()), "coder_1");
    let other = Coder { spec: None, component_coder_ids: vec!["coder_1".to_string()] };
    assert_eq!(p.get_coder_id(other), "coder_2");
    assert_eq!(p.get_proto().components.coders.len(), 2);
}

#[test]
fn coder_to_proto_registers_components() {
    let mut p = Pipeline::new("".to_string());
    let tree = KV::<String, u64>::default_coder_urn();
    let coder = p.coder_to_proto(&tree);
    let spec = coder.spec.unwrap();
    assert_eq!(spec.urn, "beam:coder:kvcoder:v1");
    assert!(spec.payload.is_empty());
    assert_eq!(coder.component_coder_ids, vec!["coder_1".to_string(), "coder_2".to_string()]);
    let coders = &p.get_proto().components.coders;
    assert_eq!(find(coders, "coder_1").unwrap().spec.as_ref().unwrap().urn, "beam:coder:string_utf8:v1");
    assert_eq!(find(coders, "coder_2").unwrap().spec.as_ref().unwrap().urn, "beam:coder:varint:v1");
}

#[test]
fn pcollections_get_fresh_ids() {
    let mut p = Pipeline::new("ref_".to_string());
    let a = p.create_pcollection_id_internal("c".to_string());
    let b = p.create_pcollection_id_internal("c".to_string());
    assert_eq!(a, "ref_pc_0");
    assert_eq!(b, "ref_pc_1");
    let pc = p.create_pcollection_internal(&CoderUrnTree::leaf("beam:coder:bytes:v1"));
    assert_eq!(*pc.get_type(), PType::PCollection);
    assert_eq!(pc.get_id(), "ref_pc_2");
    let pcolls = &p.get_proto().components.pcollections;
    assert_eq!(find(pcolls, "ref_pc_2").unwrap().coder_id, "coder_1");
}

#[test]
fn run_impulse_expansion() {
    let mut p = Pipeline::new("ref_".to_string());
    let root = PValue::new_root();
    let pcoll = p
        .apply_transform(Impulse::new().expand_spec(), &root, &Bytes::default_coder_urn())
        .unwrap();
    assert_eq!(*pcoll.get_type(), PType::PCollection);
    assert_eq!(pcoll.get_id(), "ref_pc_1");

    let proto = p.get_proto();
    assert_eq!(proto.root_transform_ids, vec!["ref_transform_0".to_string()]);
    let t = find(&proto.components.transforms, "ref_transform_0").unwrap();
    assert_eq!(t.spec.as_ref().unwrap().urn, "beam:transform:impulse:v1");
    assert_eq!(t.spec.as_ref().unwrap().payload, b"impulse".to_vec());
    assert!(t.inputs.is_empty());
    assert_eq!(t.outputs, vec![("main".to_string(), "ref_pc_1".to_string())]);
    assert_eq!(t.environment_id, "ref_rustEnvironment");
    assert!(t.unique_name.chars().all(|c| c.is_ascii_digit()));
    let pc = find(&proto.components.pcollections, "ref_pc_1").unwrap();
    let coder = find(&proto.components.coders, &pc.coder_id).unwrap();
    assert_eq!(coder.spec.as_ref().unwrap().urn, "beam:coder:bytes:v1");
}

#[test]
fn transforms_chain_and_share_coders() {
    let mut p = Pipeline::new("".to_string());
    let root = PValue::new_root();
    let first = p.apply_transform(Impulse::new().expand_spec(), &root, &Bytes::default_coder_urn()).unwrap();
    let spec = FunctionSpec { urn: "beam:transform:pardo:v1".to_string(), payload: b"object0".to_vec() };
    let second = p.apply_transform(spec, &first, &Bytes::default_coder_urn()).unwrap();
    assert_eq!(second.get_id(), "pc_3");
    let proto = p.get_proto();
    assert_eq!(proto.root_transform_ids, vec!["transform_0".to_string(), "transform_2".to_string()]);
    let t = find(&proto.components.transforms, "transform_2").unwrap();
    assert_eq!(t.inputs, vec![("main".to_string(), "pc_1".to_string())]);
    assert_eq!(proto.components.coders.len(), 1);
}

#[test]
fn flatten_lists_by_position() {
    let a = PValue::new(PType::PCollection, "pa".to_string());
    let b = PValue::new(PType::PCollection, "pb".to_string());
    let arr = PValue::new_array(&[a, b]);
    assert_eq!(*arr.get_type(), PType::PValueArr);
    assert_eq!(arr.get_id(), "pa,pb");
    let flat = flatten_pvalue(&arr, None);
    assert_eq!(flat, vec![("0".to_string(), "pa".to_string()), ("1".to_string(), "pb".to_string())]);
    let one = PValue::new(PType::PCollection, "pc".to_string());
    assert_eq!(flatten_pvalue(&one, Some("in".to_string())), vec![("in".to_string(), "pc".to_string())]);
    assert!(flatten_pvalue(&PValue::new_root(), None).is_empty());
}

#[test]
fn random_ids_are_numerals() {
    let id = get_bad_id();
    assert!(!id.is_empty());
    assert!(id.chars().all(|c| c.is_ascii_digit()));
    let name = get_pcollection_name();
    assert!(name.starts_with("ref_PCollection_"));
    assert!(name["ref_PCollection_".len()..].chars().all(|c| c.is_ascii_digit()));
}

#[test]
fn direct_runner_descriptor_holds_components() {
    let mut p = Pipeline::new("".to_string());
    let root = PValue::new_root();
    p.apply_transform(Impulse::new().expand_spec(), &root, &Bytes::default_coder_urn()).unwrap();
    let proto = p.get_proto();
    let copy = apache_beam::proto::Pipeline {
        components: apache_beam::proto::Components {
            transforms: proto.components.transforms.iter().map(|(k, t)| (k.clone(), t.copy())).collect(),
            pcollections: proto
                .components
                .pcollections
                .iter()
                .map(|(k, c)| (k.clone(), apache_beam::proto::PCollection { unique_name: c.unique_name.clone(), coder_id: c.coder_id.clone() }))
                .collect(),
            windowing_strategies: vec![(
                "ws".to_string(),
                apache_beam::proto::WindowingStrategy {
                    window_fn: None,
                    window_coder_id: "coder_9".to_string(),
                    environment_id: "env".to_string(),
                },
            )],
            coders: Vec::new(),
            environments: vec![(
                "env".to_string(),
                apache_beam::proto::Environment { urn: "beam:env:embedded:v1".to_string(), payload: vec![], capabilities: vec![] },
            )],
        },
        root_transform_ids: proto.root_transform_ids.clone(),
    };
    let descriptor = DirectRunner::new().bundle_descriptor(copy);
    assert_eq!(descriptor.id, "");
    assert_eq!(descriptor.transforms.len(), 1);
    assert_eq!(descriptor.pcollections.len(), 1);
    assert!(descriptor.coders.is_empty());
    assert_eq!(descriptor.windowing_strategies.len(), 1);
    assert_eq!(descriptor.windowing_strategies[0].1.window_coder_id, "coder_9");
    assert_eq!(descriptor.environments[0].0, "env");
    assert!(proto.components.windowing_strategies.is_empty());
    assert!(proto.components.environments.is_empty());
}

#[test]
fn registered_root_has_bytes_coder_and_root_transform() {
    let mut p = Pipeline::new("".to_string());
    let root = p.register_root();
    assert_eq!(*root.get_type(), PType::Root);
    assert_eq!(root.get_id(), "root");
    let proto = p.get_proto();
    let coder = find(&proto.components.coders, "coder_1").unwrap();
    assert_eq!(coder.spec.as_ref().unwrap().urn, "beam:coder:bytes:v1");
    let t = find(&proto.components.transforms, "root").unwrap();
    assert_eq!(t.unique_name, "root");
    assert!(t.spec.is_none());
    assert_eq!(t.outputs, vec![("out".to_string(), "root".to_string())]);
    assert!(proto.root_transform_ids.is_empty());
    assert!(proto.components.pcollections.is_empty());
    // a second root reuses the coder and replaces the transform
    p.register_root_named("other".to_string());
    let proto = p.get_proto();
    assert_eq!(proto.components.coders.len(), 1);
    assert_eq!(proto.components.transforms.len(), 1);
    assert_eq!(find(&proto.components.transforms, "root").unwrap().outputs[0].1, "other");
}

#[test]
fn placeholder_runner_root() {
    let mut runner = apache_beam::runners::PlaceholderRunner::new();
    let root = runner.run();
    assert_eq!(*root.get_type(), PType::Root);
    let id = root.get_id();
    assert!(id.starts_with("ref_PCollection_"));
    let proto = runner.get_pipeline().get_proto();
    assert_eq!(find(&proto.components.transforms, "root").unwrap().outputs, vec![("out".to_string(), id)]);
}

#[test]
fn worker_starts_without_options() {
    let w = Worker::new("w1".to_string(), WorkerEndpoints::new(Some("localhost:1".to_string())));
    assert_eq!(w.id, "w1");
    assert_eq!(w.endpoints.control_endpoint_url.as_deref(), Some("localhost:1"));
    assert!(w.options.is_empty());
}

#[test]
fn shared_component_coders_get_one_id() {
    let mut p = Pipeline::new("".to_string());
    let tree = KV::<Bytes, Bytes>::default_coder_urn();
    let coder = p.coder_to_proto(&tree);
    assert_eq!(coder.spec.as_ref().unwrap().urn, "beam:coder:kvcoder:v1");
    assert_eq!(coder.component_coder_ids, vec!["coder_1".to_string(), "coder_1".to_string()]);
    let coders = &p.get_proto().components.coders;
    assert_eq!(coders.len(), 1);
    assert_eq!(find(coders, "coder_1").unwrap().spec.as_ref().unwrap().urn, "beam:coder:bytes:v1");
}

#[test]
fn default_pipeline_is_new_without_prefix() {
    let mut p = Pipeline::default();
    let root = PValue::new_root();
    let pc = p.apply_transform(Impulse::default().expand_spec(), &root, &Bytes::default_coder_urn()).unwrap();
    assert_eq!(pc.get_id(), "pc_1");
    let t = find(&p.get_proto().components.transforms, "transform_0").unwrap();
    assert_eq!(t.environment_id, "rustEnvironment");
    assert_eq!(t.spec.as_ref().unwrap().urn, "beam:transform:impulse:v1");
}

#[test]
fn composite_transforms_nest_their_parts() {
    let mut p = Pipeline::new("".to_string());
    let root = PValue::new_root();
    let outer = p.begin_transform(&root).unwrap();
    assert_eq!(outer, "transform_0");
    let inner = p.apply_transform(Impulse::new().expand_spec(), &root, &Bytes::default_coder_urn()).unwrap();
    assert_eq!(inner.get_id(), "pc_2");
    assert_eq!(p.end_transform(&inner), "transform_0");

    let proto = p.get_proto();
    assert_eq!(proto.root_transform_ids, vec!["transform_0".to_string()]);
    let outer_t = find(&proto.components.transforms, "transform_0").unwrap();
    assert_eq!(outer_t.subtransforms, vec!["transform_1".to_string()]);
    assert!(outer_t.spec.is_none());
    assert_eq!(outer_t.outputs, vec![("main".to_string(), "pc_2".to_string())]);
    let inner_t = find(&proto.components.transforms, "transform_1").unwrap();
    assert!(inner_t.unique_name.starts_with(&format!("{}/", outer_t.unique_name)));
    assert!(inner_t.subtransforms.is_empty());

    // back at the top level
    let next = p.apply_transform(Impulse::new().expand_spec(), &root, &Bytes::default_coder_urn()).unwrap();
    assert_eq!(next.get_id(), "pc_4");
    assert_eq!(p.get_proto().root_transform_ids, vec!["transform_0".to_string(), "transform_3".to_string()]);
}
