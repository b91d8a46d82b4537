//! The parts of the Beam Runner API's pipeline messages that pipeline construction
//! reads and writes. Maps keyed by strings are lists of pairs with distinct keys.

use vstd::prelude::*;

use crate::assoc::{assoc_view, keys_distinct};

verus! {

/// A function spec: a URN and an opaque payload.
#[derive(Debug)]
pub struct FunctionSpec {
    pub urn: String,
    pub payload: Vec<u8>,
}

/// A coder: its spec and the ids of its component coders.
#[derive(Debug)]
pub struct Coder {
    pub spec: Option<FunctionSpec>,
    pub component_coder_ids: Vec<String>,
}

/// A transform of the pipeline graph.
#[derive(Debug)]
pub struct PTransform {
    pub unique_name: String,
    pub spec: Option<FunctionSpec>,
    pub subtransforms: Vec<String>,
    pub inputs: Vec<(String, String)>,
    pub outputs: Vec<(String, String)>,
    pub environment_id: String,
}

/// A PCollection of the pipeline graph.
#[derive(Debug)]
pub struct PCollection {
    pub unique_name: String,
    pub coder_id: String,
}

/// A windowing strategy: how elements are assigned to windows, the coder of the
/// windows, and the environment that the window function runs in.
#[derive(Debug)]
pub struct WindowingStrategy {
    pub window_fn: Option<FunctionSpec>,
    pub window_coder_id: String,
    pub environment_id: String,
}

/// An environment that transforms run in: its URN, payload and capabilities.
#[derive(Debug)]
pub struct Environment {
    pub urn: String,
    pub payload: Vec<u8>,
    pub capabilities: Vec<String>,
}

/// The components of a pipeline, each by id.
#[derive(Debug)]
pub struct Components {
    pub transforms: Vec<(String, PTransform)>,
    pub pcollections: Vec<(String, PCollection)>,
    pub windowing_strategies: Vec<(String, WindowingStrategy)>,
    pub coders: Vec<(String, Coder)>,
    pub environments: Vec<(String, Environment)>,
}

/// A pipeline: its components and the ids of its top-level transforms.
#[derive(Debug)]
pub struct Pipeline {
    pub components: Components,
    pub root_transform_ids: Vec<String>,
}

/// What a worker needs to process bundles of a pipeline: its components, under an id.
#[derive(Debug)]
pub struct ProcessBundleDescriptor {
    pub id: String,
    pub transforms: Vec<(String, PTransform)>,
    pub pcollections: Vec<(String, PCollection)>,
    pub windowing_strategies: Vec<(String, WindowingStrategy)>,
    pub coders: Vec<(String, Coder)>,
    pub environments: Vec<(String, Environment)>,
}

/// The first record of a recorded test stream: the PCollection that it is for.
#[derive(Debug)]
pub struct TestStreamFileHeader {
    /// The PCollection tag this stream is associated with.
    pub tag: String,
}

/// A single element of a test stream: its encoding and its event timestamp in milliseconds.
#[derive(Debug)]
pub struct TimestampedElement {
    pub encoded_element: Vec<u8>,
    pub timestamp: i64,
}

/// An event of a test stream.
#[derive(Debug)]
pub enum TestStreamEvent {
    /// Advances the watermark of the output `tag` to `new_watermark` (milliseconds).
    WatermarkEvent { new_watermark: i64, tag: String },
    /// Advances the processing time clock by `advance_duration` milliseconds.
    ProcessingTimeEvent { advance_duration: i64 },
    /// Adds elements to the output `tag`.
    ElementEvent { elements: Vec<TimestampedElement>, tag: String },
}

/// A recorded element or event of a test stream.
#[derive(Debug)]
pub struct TestStreamFileRecord {
    /// The recorded event from an element stream.
    pub recorded_event: Option<TestStreamEvent>,
}

/// A function spec as a value.
pub struct FunctionSpecView {
    pub urn: Seq<char>,
    pub payload: Seq<u8>,
}

/// A coder as a value.
pub struct CoderView {
    pub spec: Option<FunctionSpecView>,
    pub component_coder_ids: Seq<Seq<char>>,
}

/// A transform as a value.
pub struct PTransformView {
    pub unique_name: Seq<char>,
    pub spec: Option<FunctionSpecView>,
    pub subtransforms: Seq<Seq<char>>,
    pub inputs: Map<Seq<char>, Seq<char>>,
    pub outputs: Map<Seq<char>, Seq<char>>,
    pub environment_id: Seq<char>,
}

/// A PCollection as a value.
pub struct PCollectionView {
    pub unique_name: Seq<char>,
    pub coder_id: Seq<char>,
}

/// The views of a list of strings.
pub open spec fn strings_view(v: Seq<String>) -> Seq<Seq<char>> {
    v.map_values(|s: String| s@)
}

/// The map that a list of string pairs stands for, with string values seen as text.
pub open spec fn string_map_view(m: Seq<(String, String)>) -> Map<Seq<char>, Seq<char>> {
    assoc_view(m).map_values(|s: String| s@)
}

impl FunctionSpec {
    pub open spec fn view(&self) -> FunctionSpecView {
        FunctionSpecView { urn: self.urn@, payload: self.payload@ }
    }

    /// A copy of the spec.
    pub fn copy(&self) -> (r: FunctionSpec)
        ensures
            r.view() == self.view(),
    {
        FunctionSpec { urn: self.urn.clone(), payload: copy_bytes(&self.payload) }
    }
}

pub open spec fn spec_view(spec: Option<FunctionSpec>) -> Option<FunctionSpecView> {
    match spec {
        Some(f) => Some(f.view()),
        None => None,
    }
}

impl Coder {
    pub open spec fn view(&self) -> CoderView {
        CoderView { spec: spec_view(self.spec), component_coder_ids: strings_view(self.component_coder_ids@) }
    }

    /// Whether two coders are the same value.
    pub fn same(&self, other: &Coder) -> (r: bool)
        ensures
            r == (self.view() == other.view()),
    {
        let same_spec = match (&self.spec, &other.spec) {
            (Some(a), Some(b)) => a.urn == b.urn && bytes_equal(&a.payload, &b.payload),
            (None, None) => true,
            _ => false,
        };
        let r = same_spec && strings_equal(&self.component_coder_ids, &other.component_coder_ids);
        proof {
            if r {
                match (&self.spec, &other.spec) {
                    (Some(a), Some(b)) => {
                        assert(a.view() == b.view());
                    },
                    _ => {},
                }
            }
            if self.view() == other.view() {
                match (&self.spec, &other.spec) {
                    (Some(a), Some(b)) => {
                        assert(a.view() == b.view());
                        assert(a.urn@ == b.urn@);
                        assert(a.payload@ == b.payload@);
                    },
                    _ => {},
                }
            }
        }
        r
    }
}

impl PTransform {
    pub open spec fn view(&self) -> PTransformView {
        PTransformView {
            unique_name: self.unique_name@,
            spec: spec_view(self.spec),
            subtransforms: strings_view(self.subtransforms@),
            inputs: string_map_view(self.inputs@),
            outputs: string_map_view(self.outputs@),
            environment_id: self.environment_id@,
        }
    }

    pub open spec fn wf(&self) -> bool {
        keys_distinct(self.inputs@) && keys_distinct(self.outputs@)
    }

    /// A copy of the transform.
    pub fn copy(&self) -> (r: PTransform)
        requires
            self.wf(),
        ensures
            r.view() == self.view(),
            r.wf(),
            r.inputs@.len() == self.inputs@.len(),
    {
        let spec = match &self.spec {
            Some(f) => Some(f.copy()),
            None => None,
        };
        let inputs = copy_pairs(&self.inputs);
        let outputs = copy_pairs(&self.outputs);
        let r = PTransform {
            unique_name: self.unique_name.clone(),
            spec,
            subtransforms: copy_strings(&self.subtransforms),
            inputs,
            outputs,
            environment_id: self.environment_id.clone(),
        };
        assert(r.view().inputs =~= self.view().inputs);
        assert(r.view().outputs =~= self.view().outputs);
        r
    }
}

impl PCollection {
    pub open spec fn view(&self) -> PCollectionView {
        PCollectionView { unique_name: self.unique_name@, coder_id: self.coder_id@ }
    }
}

/// A copy of a byte vector.
pub fn copy_bytes(v: &Vec<u8>) -> (r: Vec<u8>)
    ensures
        r@ == v@,
{
    vstd::slice::slice_to_vec(v.as_slice())
}

/// Whether two byte vectors hold the same bytes.
pub fn bytes_equal(a: &Vec<u8>, b: &Vec<u8>) -> (r: bool)
    ensures
        r == (a@ == b@),
{
    if a.len() != b.len() {
        return false;
    }
    let mut i: usize = 0;
    while i < a.len()
        invariant
            a@.len() == b@.len(),
            i <= a@.len(),
            forall|j: int| 0 <= j < i ==> a@[j] == b@[j],
        decreases a@.len() - i,
    {
        if a[i] != b[i] {
            return false;
        }
        i = i + 1;
    }
    assert(a@ =~= b@);
    true
}

/// Whether two lists of strings hold the same texts.
pub fn strings_equal(a: &Vec<String>, b: &Vec<String>) -> (r: bool)
    ensures
        r == (strings_view(a@) == strings_view(b@)),
{
    if a.len() != b.len() {
        assert(strings_view(a@).len() != strings_view(b@).len());
        return false;
    }
    let mut i: usize = 0;
    while i < a.len()
        invariant
            a@.len() == b@.len(),
            i <= a@.len(),
            forall|j: int| 0 <= j < i ==> a@[j]@ == b@[j]@,
        decreases a@.len() - i,
    {
        if a[i] != b[i] {
            assert(strings_view(a@)[i as int] != strings_view(b@)[i as int]);
            return false;
        }
        i = i + 1;
    }
    assert(strings_view(a@) =~= strings_view(b@));
    true
}

/// A copy of a list of strings.
pub fn copy_strings(v: &Vec<String>) -> (r: Vec<String>)
    ensures
        r@ == v@,
{
    let mut r: Vec<String> = Vec::new();
    let mut i: usize = 0;
    while i < v.len()
        invariant
            i <= v@.len(),
            r@ == v@.subrange(0, i as int),
        decreases v@.len() - i,
    {
        r.push(v[i].clone());
        i = i + 1;
        assert(r@ =~= v@.subrange(0, i as int));
    }
    assert(v@.subrange(0, v@.len() as int) =~= v@);
    r
}

/// A copy of a list of string pairs.
pub fn copy_pairs(v: &Vec<(String, String)>) -> (r: Vec<(String, String)>)
    ensures
        r@ == v@,
{
    let mut r: Vec<(String, String)> = Vec::new();
    let mut i: usize = 0;
    while i < v.len()
        invariant
            i <= v@.len(),
            r@ == v@.subrange(0, i as int),
        decreases v@.len() - i,
    {
        let k = v[i].0.clone();
        let val = v[i].1.clone();
        r.push((k, val));
        i = i + 1;
        assert(r@ =~= v@.subrange(0, i as int));
    }
    assert(v@.subrange(0, v@.len() as int) =~= v@);
    r
}

} // verus!
