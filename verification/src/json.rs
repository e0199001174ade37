//! Scene descriptions as JSON documents: the document as a tree of plain
//! values, and the reading of a scene's sections from it.
//!
//! A number is kept as its bits in double precision, and as an unsigned
//! integer where it is one. What a section holds is handed out as a record
//! of what was found; a field that the document leaves out is `None` there.

use vstd::prelude::*;
use crate::color::TMOType;
use crate::lights::LightType;
use crate::materials::MaterialType;
use crate::rgb::ImageSize;
use crate::scene::{
    IntegratorType,
    RandomSamplerSettings,
    Sampler,
    SamplerType,
    StratifiedSamplerSettings,
    DEFAULT_SEED,
};
use crate::shapes::ShapeType;
use crate::tags::is_word;

verus! {

/// A JSON number.
#[derive(Clone, Copy, Debug, PartialEq, Eq)]
pub struct Number {
    /// The number as an unsigned integer, where it is one that fits.
    pub unsigned: Option<u64>,
    /// The bits of the number in double precision.
    pub bits: u64,
}

/// A JSON document.
pub enum Json {
    Null,
    Bool(bool),
    Number(Number),
    Text(String),
    Array(Vec<Json>),
    Object(Vec<(String, Json)>),
}

/// What is wrong with a scene description; each error names the field.
#[derive(Clone, Copy, Debug, PartialEq, Eq)]
pub enum SceneError {
    /// The field is missing or holds a value of the wrong kind.
    Field(&'static str),
    /// The field holds a tag that names no choice.
    UnknownTag(&'static str),
    /// The field does not hold a list.
    ExpectedList(&'static str),
    /// The field holds more than three numbers.
    ExpectedThree(&'static str),
}

/// A number with a fraction, by its bits in double precision.
#[derive(Clone, Copy, Debug, PartialEq, Eq)]
pub struct Real {
    pub bits: u64,
}

/// Three numbers: a point, a vector or a color.
#[derive(Clone, Copy, Debug, PartialEq, Eq)]
pub struct Triple {
    pub x: Real,
    pub y: Real,
    pub z: Real,
}

/// The value of the first member named `key` from position `from` on.
pub open spec fn find(members: Seq<(String, Json)>, key: Seq<char>, from: int) -> Option<Json>
    decreases members.len() - from,
{
    if from < 0 || from >= members.len() {
        None
    } else if members[from].0@ == key {
        Some(members[from].1)
    } else {
        find(members, key, from + 1)
    }
}

/// The member of an object that `key` names. `None` where `json` is no
/// object or has no such member.
pub open spec fn member_of(json: Json, key: Seq<char>) -> Option<Json> {
    match json {
        Json::Object(members) => find(members@, key, 0),
        _ => None,
    }
}

/// The element of an array at position `i`. `None` where `json` is no array
/// or is shorter.
pub open spec fn element_of(json: Json, i: int) -> Option<Json> {
    match json {
        Json::Array(elements) => if 0 <= i < elements@.len() {
            Some(elements@[i])
        } else {
            None
        },
        _ => None,
    }
}

/// The field is there: it was found and is not `null`.
pub open spec fn present(v: Option<Json>) -> bool {
    match v {
        Some(Json::Null) => false,
        Some(_) => true,
        None => false,
    }
}

/// What a reference that may be missing refers to.
pub open spec fn val(v: Option<&Json>) -> Option<Json> {
    match v {
        Some(json) => Some(*json),
        None => None,
    }
}

impl Json {
    /// The member that `key` names.
    pub fn member<'a>(&'a self, key: &str) -> (r: Option<&'a Json>)
        ensures
            val(r) == member_of(*self, key@),
    {
        match self {
            Json::Object(members) => {
                let mut i: usize = 0;
                while i < members.len()
                    invariant
                        i <= members.len(),
                        member_of(*self, key@) == find(members@, key@, i as int),
                    decreases members.len() - i,
                {
                    if is_word(members[i].0.as_str(), key) {
                        return Some(&members[i].1);
                    }
                    i += 1;
                }
                None
            },
            _ => None,
        }
    }

    /// The element at position `i`.
    pub fn element<'a>(&'a self, i: usize) -> (r: Option<&'a Json>)
        ensures
            val(r) == element_of(*self, i as int),
    {
        match self {
            Json::Array(elements) => {
                if i < elements.len() {
                    Some(&elements[i])
                } else {
                    None
                }
            },
            _ => None,
        }
    }
}

/// Whether the field is there.
pub fn is_present(v: Option<&Json>) -> (b: bool)
    ensures
        b == present(val(v)),
{
    match v {
        Some(Json::Null) => false,
        Some(_) => true,
        None => false,
    }
}

/// The field as a count: an unsigned integer.
pub open spec fn as_count(v: Option<Json>, name: &'static str) -> Result<usize, SceneError> {
    match v {
        Some(Json::Number(n)) => match n.unsigned {
            Some(u) => Ok(u as usize),
            None => Err(SceneError::Field(name)),
        },
        _ => Err(SceneError::Field(name)),
    }
}

pub fn read_count(v: Option<&Json>, name: &'static str) -> (r: Result<usize, SceneError>)
    ensures
        r == as_count(val(v), name),
{
    match v {
        Some(Json::Number(n)) => match n.unsigned {
            Some(u) => Ok(
                #[verifier::truncate]
                (u as usize),
            ),
            None => Err(SceneError::Field(name)),
        },
        _ => Err(SceneError::Field(name)),
    }
}

/// The field as a truth value.
pub open spec fn as_flag(v: Option<Json>, name: &'static str) -> Result<bool, SceneError> {
    match v {
        Some(Json::Bool(b)) => Ok(b),
        _ => Err(SceneError::Field(name)),
    }
}

pub fn read_flag(v: Option<&Json>, name: &'static str) -> (r: Result<bool, SceneError>)
    ensures
        r == as_flag(val(v), name),
{
    match v {
        Some(Json::Bool(b)) => Ok(*b),
        _ => Err(SceneError::Field(name)),
    }
}

/// The field as a text.
pub open spec fn as_text(v: Option<Json>, name: &'static str) -> Result<String, SceneError> {
    match v {
        Some(Json::Text(s)) => Ok(s),
        _ => Err(SceneError::Field(name)),
    }
}

pub fn read_text<'a>(v: Option<&'a Json>, name: &'static str) -> (r: Result<&'a String, SceneError>)
    ensures
        match r {
            Ok(s) => as_text(val(v), name) == Ok::<String, SceneError>(*s),
            Err(e) => as_text(val(v), name) == Err::<String, SceneError>(e),
        },
{
    match v {
        Some(Json::Text(s)) => Ok(s),
        _ => Err(SceneError::Field(name)),
    }
}

/// The field as a number with a fraction.
pub open spec fn as_real(v: Option<Json>, name: &'static str) -> Result<Real, SceneError> {
    match v {
        Some(Json::Number(n)) => Ok(Real { bits: n.bits }),
        _ => Err(SceneError::Field(name)),
    }
}

pub fn read_real(v: Option<&Json>, name: &'static str) -> (r: Result<Real, SceneError>)
    ensures
        r == as_real(val(v), name),
{
    match v {
        Some(Json::Number(n)) => Ok(Real { bits: n.bits }),
        _ => Err(SceneError::Field(name)),
    }
}

/// The element of a field at position `i`.
pub open spec fn at(v: Option<Json>, i: int) -> Option<Json> {
    match v {
        Some(json) => element_of(json, i),
        None => None,
    }
}

fn element_at<'a>(v: Option<&'a Json>, i: usize) -> (r: Option<&'a Json>)
    ensures
        val(r) == at(val(v), i as int),
{
    match v {
        Some(json) => json.element(i),
        None => None,
    }
}

/// The field as three numbers: a list of exactly three.
pub open spec fn as_triple(v: Option<Json>, name: &'static str) -> Result<Triple, SceneError> {
    match as_real(at(v, 0), name) {
        Err(e) => Err(e),
        Ok(x) => match as_real(at(v, 1), name) {
            Err(e) => Err(e),
            Ok(y) => match as_real(at(v, 2), name) {
                Err(e) => Err(e),
                Ok(z) => if present(at(v, 3)) {
                    Err(SceneError::ExpectedThree(name))
                } else {
                    Ok(Triple { x, y, z })
                },
            },
        },
    }
}

pub fn read_triple(v: Option<&Json>, name: &'static str) -> (r: Result<Triple, SceneError>)
    ensures
        r == as_triple(val(v), name),
{
    let x = match read_real(element_at(v, 0), name) {
        Ok(x) => x,
        Err(e) => {
            return Err(e);
        },
    };
    let y = match read_real(element_at(v, 1), name) {
        Ok(y) => y,
        Err(e) => {
            return Err(e);
        },
    };
    let z = match read_real(element_at(v, 2), name) {
        Ok(z) => z,
        Err(e) => {
            return Err(e);
        },
    };
    if is_present(element_at(v, 3)) {
        return Err(SceneError::ExpectedThree(name));
    }
    Ok(Triple { x, y, z })
}

/// The field as three numbers, if it is there.
pub open spec fn as_optional_triple(v: Option<Json>, name: &'static str) -> Result<
    Option<Triple>,
    SceneError,
> {
    if present(v) {
        match as_triple(v, name) {
            Ok(t) => Ok(Some(t)),
            Err(e) => Err(e),
        }
    } else {
        Ok(None)
    }
}

pub fn read_optional_triple(v: Option<&Json>, name: &'static str) -> (r: Result<
    Option<Triple>,
    SceneError,
>)
    ensures
        r == as_optional_triple(val(v), name),
{
    if is_present(v) {
        match read_triple(v, name) {
            Ok(t) => Ok(Some(t)),
            Err(e) => Err(e),
        }
    } else {
        Ok(None)
    }
}

/// The field as a count, if it is there.
pub open spec fn as_optional_count(v: Option<Json>, name: &'static str) -> Result<
    Option<usize>,
    SceneError,
> {
    if present(v) {
        match as_count(v, name) {
            Ok(c) => Ok(Some(c)),
            Err(e) => Err(e),
        }
    } else {
        Ok(None)
    }
}

pub fn read_optional_count(v: Option<&Json>, name: &'static str) -> (r: Result<
    Option<usize>,
    SceneError,
>)
    ensures
        r == as_optional_count(val(v), name),
{
    if is_present(v) {
        match read_count(v, name) {
            Ok(c) => Ok(Some(c)),
            Err(e) => Err(e),
        }
    } else {
        Ok(None)
    }
}

/// The field as a number with a fraction, if it is there.
pub open spec fn as_optional_real(v: Option<Json>, name: &'static str) -> Result<
    Option<Real>,
    SceneError,
> {
    if present(v) {
        match as_real(v, name) {
            Ok(c) => Ok(Some(c)),
            Err(e) => Err(e),
        }
    } else {
        Ok(None)
    }
}

pub fn read_optional_real(v: Option<&Json>, name: &'static str) -> (r: Result<
    Option<Real>,
    SceneError,
>)
    ensures
        r == as_optional_real(val(v), name),
{
    if is_present(v) {
        match read_real(v, name) {
            Ok(c) => Ok(Some(c)),
            Err(e) => Err(e),
        }
    } else {
        Ok(None)
    }
}

/// The field as a truth value, if it is there.
pub open spec fn as_optional_flag(v: Option<Json>, name: &'static str) -> Result<
    Option<bool>,
    SceneError,
> {
    if present(v) {
        match as_flag(v, name) {
            Ok(c) => Ok(Some(c)),
            Err(e) => Err(e),
        }
    } else {
        Ok(None)
    }
}

pub fn read_optional_flag(v: Option<&Json>, name: &'static str) -> (r: Result<
    Option<bool>,
    SceneError,
>)
    ensures
        r == as_optional_flag(val(v), name),
{
    if is_present(v) {
        match read_flag(v, name) {
            Ok(c) => Ok(Some(c)),
            Err(e) => Err(e),
        }
    } else {
        Ok(None)
    }
}

/// The field as the size of an image: a width and a height.
pub open spec fn as_resolution(v: Option<Json>) -> Result<ImageSize, SceneError> {
    match as_count(at(v, 0), "resolution width") {
        Err(e) => Err(e),
        Ok(width) => match as_count(at(v, 1), "resolution height") {
            Err(e) => Err(e),
            Ok(height) => Ok(ImageSize { width, height }),
        },
    }
}

pub fn read_resolution(v: Option<&Json>) -> (r: Result<ImageSize, SceneError>)
    ensures
        r == as_resolution(val(v)),
{
    let width = match read_count(element_at(v, 0), "resolution width") {
        Ok(width) => width,
        Err(e) => {
            return Err(e);
        },
    };
    let height = match read_count(element_at(v, 1), "resolution height") {
        Ok(height) => height,
        Err(e) => {
            return Err(e);
        },
    };
    Ok(ImageSize { width, height })
}

/// The elements of a field that holds a list.
pub open spec fn list_of(v: Option<Json>) -> Option<Seq<Json>> {
    match v {
        Some(Json::Array(elements)) => Some(elements@),
        _ => None,
    }
}

/// The first `count` elements as `item` reads them, or the error of the
/// first of them that `item` cannot read.
pub open spec fn items_upto<T>(
    item: spec_fn(Json) -> Result<T, SceneError>,
    elements: Seq<Json>,
    count: int,
) -> Result<Seq<T>, SceneError>
    decreases count,
{
    if count <= 0 {
        Ok(Seq::empty())
    } else {
        match items_upto(item, elements, count - 1) {
            Err(e) => Err(e),
            Ok(before) => match item(elements[count - 1]) {
                Ok(x) => Ok(before.push(x)),
                Err(e) => Err(e),
            },
        }
    }
}

/// A field as a list whose elements `item` reads: every element in order,
/// or the error of the first element that cannot be read. A field that
/// holds no list is an error of its own.
pub open spec fn as_list<T>(
    item: spec_fn(Json) -> Result<T, SceneError>,
    v: Option<Json>,
    name: &'static str,
) -> Result<Seq<T>, SceneError> {
    match list_of(v) {
        None => Err(SceneError::ExpectedList(name)),
        Some(elements) => items_upto(item, elements, elements.len() as int),
    }
}

/// The result holds the items of the model, or the error of the model.
pub open spec fn same_items<T>(r: Result<Vec<T>, SceneError>, model: Result<Seq<T>, SceneError>)
    -> bool {
    &&& r is Ok ==> model == Ok::<Seq<T>, SceneError>(r->Ok_0@)
    &&& r is Err ==> model == Err::<Seq<T>, SceneError>(r->Err_0)
}

/// An error is not undone by what follows it.
proof fn lemma_error_stays<T>(
    item: spec_fn(Json) -> Result<T, SceneError>,
    elements: Seq<Json>,
    at: int,
    count: int,
)
    requires
        0 <= at <= count,
        items_upto(item, elements, at) is Err,
    ensures
        items_upto(item, elements, count) == items_upto(item, elements, at),
    decreases count - at,
{
    if at < count {
        lemma_error_stays(item, elements, at, count - 1);
    }
}

/// Reads every element of a list with `read_fn`, in order, up to the first
/// that cannot be read.
fn read_list<'a, T, F: Fn(&'a Json) -> Result<T, SceneError>>(
    v: Option<&'a Json>,
    name: &'static str,
    read_fn: F,
    Ghost(item): Ghost<spec_fn(Json) -> Result<T, SceneError>>,
) -> (r: Result<Vec<T>, SceneError>)
    requires
        forall|json: &'a Json| call_requires(read_fn, (json,)),
        forall|json: Json, out: Result<T, SceneError>|
            call_ensures(read_fn, (&json,), out) ==> out == item(json),
    ensures
        same_items(r, as_list(item, val(v), name)),
{
    let elements = match v {
        Some(Json::Array(elements)) => elements,
        _ => {
            return Err(SceneError::ExpectedList(name));
        },
    };
    let mut items: Vec<T> = Vec::new();
    let mut i: usize = 0;
    while i < elements.len()
        invariant
            i <= elements.len(),
            list_of(val(v)) == Some(elements@),
            forall|json: &'a Json| call_requires(read_fn, (json,)),
            forall|json: Json, out: Result<T, SceneError>|
                call_ensures(read_fn, (&json,), out) ==> out == item(json),
            items_upto(item, elements@, i as int) == Ok::<Seq<T>, SceneError>(items@),
        decreases elements.len() - i,
    {
        match read_fn(&elements[i]) {
            Ok(x) => {
                items.push(x);
            },
            Err(e) => {
                proof {
                    assert(item(elements@[i as int]) == Err::<T, SceneError>(e));
                    assert(items_upto(item, elements@, i + 1) == Err::<Seq<T>, SceneError>(e));
                    lemma_error_stays(item, elements@, i + 1, elements@.len() as int);
                }
                return Err(e);
            },
        }
        i += 1;
    }
    Ok(items)
}

/// What the section `global` holds.
pub struct GlobalRecord<'a> {
    pub resolution: Option<ImageSize>,
    pub spp: Option<usize>,
    pub tonemap: Option<TMOType>,
    pub output: Option<&'a String>,
    pub nthreads: Option<usize>,
}

/// The tone-mapping operator that the field names, if it is there.
pub open spec fn as_tonemap(v: Option<Json>) -> Result<Option<TMOType>, SceneError> {
    if present(v) {
        match as_text(v, "tonemap") {
            Err(e) => Err(e),
            Ok(tag) => match TMOType::tagged(tag@) {
                Some(tonemap) => Ok(Some(tonemap)),
                None => Err(SceneError::UnknownTag("tonemap")),
            },
        }
    } else {
        Ok(None)
    }
}

fn read_tonemap(v: Option<&Json>) -> (r: Result<Option<TMOType>, SceneError>)
    ensures
        r == as_tonemap(val(v)),
{
    if is_present(v) {
        match read_text(v, "tonemap") {
            Err(e) => Err(e),
            Ok(tag) => match TMOType::from_tag(tag.as_str()) {
                Some(tonemap) => Ok(Some(tonemap)),
                None => Err(SceneError::UnknownTag("tonemap")),
            },
        }
    } else {
        Ok(None)
    }
}

/// The text of a field, if it is there.
pub open spec fn as_optional_text(v: Option<Json>, name: &'static str) -> Result<
    Option<String>,
    SceneError,
> {
    if present(v) {
        match as_text(v, name) {
            Ok(s) => Ok(Some(s)),
            Err(e) => Err(e),
        }
    } else {
        Ok(None)
    }
}

/// The section `global`: the resolution, the samples for each pixel, the
/// tone-mapping operator, the output file and the number of threads, each
/// where the section gives it. Of several wrong fields the first in this
/// order is reported.
pub open spec fn as_global(section: Json) -> Result<GlobalRecord<'static>, SceneError> {
    let resolution = if present(member_of(section, "resolution"@)) {
        match as_resolution(member_of(section, "resolution"@)) {
            Ok(size) => Ok(Some(size)),
            Err(e) => Err(e),
        }
    } else {
        Ok(None)
    };
    match resolution {
        Err(e) => Err(e),
        Ok(resolution) => match as_optional_count(member_of(section, "spp"@), "spp") {
            Err(e) => Err(e),
            Ok(spp) => match as_tonemap(member_of(section, "tonemap"@)) {
                Err(e) => Err(e),
                Ok(tonemap) => match as_optional_text(member_of(section, "output"@), "output") {
                    Err(e) => Err(e),
                    Ok(output) => match as_optional_count(
                        member_of(section, "nthreads"@),
                        "nthreads",
                    ) {
                        Err(e) => Err(e),
                        Ok(nthreads) => Ok(
                            GlobalRecord {
                                resolution,
                                spp,
                                tonemap,
                                output: match output {
                                    Some(s) => Some(&s),
                                    None => None,
                                },
                                nthreads,
                            },
                        ),
                    },
                },
            },
        },
    }
}

/// Reads the section `global`.
pub fn parse_global<'a>(section: &'a Json) -> (r: Result<GlobalRecord<'a>, SceneError>)
    ensures
        r == as_global(*section),
{
    let resolution = if is_present(section.member("resolution")) {
        match read_resolution(section.member("resolution")) {
            Ok(size) => Some(size),
            Err(e) => {
                return Err(e);
            },
        }
    } else {
        None
    };
    let spp = match read_optional_count(section.member("spp"), "spp") {
        Ok(spp) => spp,
        Err(e) => {
            return Err(e);
        },
    };
    let tonemap = match read_tonemap(section.member("tonemap")) {
        Ok(tonemap) => tonemap,
        Err(e) => {
            return Err(e);
        },
    };
    let output = if is_present(section.member("output")) {
        match read_text(section.member("output"), "output") {
            Ok(s) => Some(s),
            Err(e) => {
                return Err(e);
            },
        }
    } else {
        None
    };
    let nthreads = match read_optional_count(section.member("nthreads"), "nthreads") {
        Ok(nthreads) => nthreads,
        Err(e) => {
            return Err(e);
        },
    };
    Ok(GlobalRecord { resolution, spp, tonemap, output, nthreads })
}

/// What the section `sampler` holds: the sampler with its settings, and the
/// number of samples for each pixel where the section gives it.
pub struct SamplerRecord {
    pub sampler: Sampler,
    pub pixelsamples: Option<usize>,
}

/// The value of a field that may be missing, or the default.
pub open spec fn or_default<T>(v: Option<T>, default: T) -> T {
    match v {
        Some(x) => x,
        None => default,
    }
}

/// The settings of an independent sampler: the seed.
pub open spec fn as_independent(section: Json) -> Result<SamplerRecord, SceneError> {
    match as_optional_count(member_of(section, "seed"@), "sampler->seed") {
        Err(e) => Err(e),
        Ok(seed) => match as_optional_count(
            member_of(section, "pixelsamples"@),
            "sampler->pixelsamples",
        ) {
            Err(e) => Err(e),
            Ok(pixelsamples) => Ok(
                SamplerRecord {
                    sampler: Sampler::Random(
                        RandomSamplerSettings {
                            seed: match seed {
                                Some(seed) => seed as u64,
                                None => DEFAULT_SEED,
                            },
                        },
                    ),
                    pixelsamples,
                },
            ),
        },
    }
}

/// The settings of a stratified sampler: the seed, the grid and the jitter;
/// a grid of 4 by 4 with jitter where the section leaves them out.
pub open spec fn as_stratified(section: Json) -> Result<SamplerRecord, SceneError> {
    match as_optional_count(member_of(section, "seed"@), "sampler->seed") {
        Err(e) => Err(e),
        Ok(seed) => match as_optional_count(member_of(section, "xsamples"@), "sampler->xsamples") {
            Err(e) => Err(e),
            Ok(xsamples) => match as_optional_count(
                member_of(section, "ysamples"@),
                "sampler->ysamples",
            ) {
                Err(e) => Err(e),
                Ok(ysamples) => match as_optional_flag(
                    member_of(section, "jitter"@),
                    "sampler->jitter",
                ) {
                    Err(e) => Err(e),
                    Ok(jitter) => Ok(
                        SamplerRecord {
                            sampler: Sampler::Stratified(
                                StratifiedSamplerSettings {
                                    seed: match seed {
                                        Some(seed) => seed as u64,
                                        None => DEFAULT_SEED,
                                    },
                                    xsamples: match xsamples {
                                        Some(n) => n as u32,
                                        None => 4,
                                    },
                                    ysamples: match ysamples {
                                        Some(n) => n as u32,
                                        None => 4,
                                    },
                                    jitter: or_default(jitter, true),
                                },
                            ),
                            pixelsamples: None,
                        },
                    ),
                },
            },
        },
    }
}

/// The section `sampler`. `None` where the section names no type.
pub open spec fn as_sampler(section: Json) -> Result<Option<SamplerRecord>, SceneError> {
    if !present(member_of(section, "type"@)) {
        Ok(None)
    } else {
        match as_text(member_of(section, "type"@), "sampler->type") {
            Err(e) => Err(e),
            Ok(tag) => match SamplerType::tagged(tag@) {
                None => Err(SceneError::UnknownTag("sampler->type")),
                Some(SamplerType::Independent) => match as_independent(section) {
                    Ok(record) => Ok(Some(record)),
                    Err(e) => Err(e),
                },
                Some(SamplerType::Stratified) => match as_stratified(section) {
                    Ok(record) => Ok(Some(record)),
                    Err(e) => Err(e),
                },
            },
        }
    }
}

fn parse_independent(section: &Json) -> (r: Result<SamplerRecord, SceneError>)
    ensures
        r == as_independent(*section),
{
    let seed = match read_optional_count(section.member("seed"), "sampler->seed") {
        Ok(seed) => seed,
        Err(e) => {
            return Err(e);
        },
    };
    let pixelsamples = match read_optional_count(
        section.member("pixelsamples"),
        "sampler->pixelsamples",
    ) {
        Ok(pixelsamples) => pixelsamples,
        Err(e) => {
            return Err(e);
        },
    };
    let seed = match seed {
        Some(seed) => seed as u64,
        None => DEFAULT_SEED,
    };
    Ok(SamplerRecord { sampler: Sampler::Random(RandomSamplerSettings { seed }), pixelsamples })
}

fn parse_stratified(section: &Json) -> (r: Result<SamplerRecord, SceneError>)
    ensures
        r == as_stratified(*section),
{
    let seed = match read_optional_count(section.member("seed"), "sampler->seed") {
        Ok(seed) => seed,
        Err(e) => {
            return Err(e);
        },
    };
    let xsamples = match read_optional_count(section.member("xsamples"), "sampler->xsamples") {
        Ok(xsamples) => xsamples,
        Err(e) => {
            return Err(e);
        },
    };
    let ysamples = match read_optional_count(section.member("ysamples"), "sampler->ysamples") {
        Ok(ysamples) => ysamples,
        Err(e) => {
            return Err(e);
        },
    };
    let jitter = match read_optional_flag(section.member("jitter"), "sampler->jitter") {
        Ok(jitter) => jitter,
        Err(e) => {
            return Err(e);
        },
    };
    let settings = StratifiedSamplerSettings {
        seed: match seed {
            Some(seed) => seed as u64,
            None => DEFAULT_SEED,
        },
        xsamples: match xsamples {
            Some(n) => #[verifier::truncate]
            (n as u32),
            None => 4,
        },
        ysamples: match ysamples {
            Some(n) => #[verifier::truncate]
            (n as u32),
            None => 4,
        },
        jitter: match jitter {
            Some(jitter) => jitter,
            None => true,
        },
    };
    Ok(SamplerRecord { sampler: Sampler::Stratified(settings), pixelsamples: None })
}

/// Reads the section `sampler`.
pub fn parse_sampler(section: &Json) -> (r: Result<Option<SamplerRecord>, SceneError>)
    ensures
        r == as_sampler(*section),
{
    if !is_present(section.member("type")) {
        return Ok(None);
    }
    let tag = match read_text(section.member("type"), "sampler->type") {
        Ok(tag) => tag,
        Err(e) => {
            return Err(e);
        },
    };
    match SamplerType::from_tag(tag.as_str()) {
        None => Err(SceneError::UnknownTag("sampler->type")),
        Some(SamplerType::Independent) => match parse_independent(section) {
            Ok(record) => Ok(Some(record)),
            Err(e) => Err(e),
        },
        Some(SamplerType::Stratified) => match parse_stratified(section) {
            Ok(record) => Ok(Some(record)),
            Err(e) => Err(e),
        },
    }
}

/// What the section `integrator` holds: the algorithm and those of its
/// parameters that the section gives.
#[derive(Clone, Copy, Debug, PartialEq, Eq)]
pub struct IntegratorRecord {
    pub kind: IntegratorType,
    pub cossample: Option<bool>,
    pub maxdistance: Option<Real>,
    pub maxdepth: Option<usize>,
}

/// The parameters of the algorithm `kind`: the sampling and the distance
/// for ambient occlusion, the depth for the random walk.
pub open spec fn as_integrator_of(section: Json, kind: IntegratorType) -> Result<
    IntegratorRecord,
    SceneError,
> {
    match kind {
        IntegratorType::AmbientOcclusion => match as_optional_flag(
            member_of(section, "cossample"@),
            "integrator->cossample",
        ) {
            Err(e) => Err(e),
            Ok(cossample) => match as_optional_real(
                member_of(section, "maxdistance"@),
                "integrator->maxdistance",
            ) {
                Err(e) => Err(e),
                Ok(maxdistance) => Ok(
                    IntegratorRecord { kind, cossample, maxdistance, maxdepth: None },
                ),
            },
        },
        IntegratorType::RandomWalk => match as_optional_count(
            member_of(section, "maxdepth"@),
            "integrator->maxdepth",
        ) {
            Err(e) => Err(e),
            Ok(maxdepth) => Ok(
                IntegratorRecord { kind, cossample: None, maxdistance: None, maxdepth },
            ),
        },
        _ => Ok(IntegratorRecord { kind, cossample: None, maxdistance: None, maxdepth: None }),
    }
}

/// The section `integrator`. `None` where the section names no type.
pub open spec fn as_integrator(section: Json) -> Result<Option<IntegratorRecord>, SceneError> {
    if !present(member_of(section, "type"@)) {
        Ok(None)
    } else {
        match as_text(member_of(section, "type"@), "integrator->type") {
            Err(e) => Err(e),
            Ok(tag) => match IntegratorType::tagged(tag@) {
                None => Err(SceneError::UnknownTag("integrator->type")),
                Some(kind) => match as_integrator_of(section, kind) {
                    Ok(record) => Ok(Some(record)),
                    Err(e) => Err(e),
                },
            },
        }
    }
}

fn parse_integrator_of(section: &Json, kind: IntegratorType) -> (r: Result<
    IntegratorRecord,
    SceneError,
>)
    ensures
        r == as_integrator_of(*section, kind),
{
    match kind {
        IntegratorType::AmbientOcclusion => {
            let cossample = match read_optional_flag(
                section.member("cossample"),
                "integrator->cossample",
            ) {
                Ok(cossample) => cossample,
                Err(e) => {
                    return Err(e);
                },
            };
            let maxdistance = match read_optional_real(
                section.member("maxdistance"),
                "integrator->maxdistance",
            ) {
                Ok(maxdistance) => maxdistance,
                Err(e) => {
                    return Err(e);
                },
            };
            Ok(IntegratorRecord { kind, cossample, maxdistance, maxdepth: None })
        },
        IntegratorType::RandomWalk => {
            let maxdepth = match read_optional_count(
                section.member("maxdepth"),
                "integrator->maxdepth",
            ) {
                Ok(maxdepth) => maxdepth,
                Err(e) => {
                    return Err(e);
                },
            };
            Ok(IntegratorRecord { kind, cossample: None, maxdistance: None, maxdepth })
        },
        _ => Ok(IntegratorRecord { kind, cossample: None, maxdistance: None, maxdepth: None }),
    }
}

/// Reads the section `integrator`.
pub fn parse_integrator(section: &Json) -> (r: Result<Option<IntegratorRecord>, SceneError>)
    ensures
        r == as_integrator(*section),
{
    if !is_present(section.member("type")) {
        return Ok(None);
    }
    let tag = match read_text(section.member("type"), "integrator->type") {
        Ok(tag) => tag,
        Err(e) => {
            return Err(e);
        },
    };
    match IntegratorType::from_tag(tag.as_str()) {
        None => Err(SceneError::UnknownTag("integrator->type")),
        Some(kind) => match parse_integrator_of(section, kind) {
            Ok(record) => Ok(Some(record)),
            Err(e) => Err(e),
        },
    }
}

/// What the section `camera` holds.
#[derive(Clone, Copy, Debug, PartialEq, Eq)]
pub struct CameraRecord {
    pub eye: Option<Triple>,
    pub lookat: Option<Triple>,
    pub fov: Option<Real>,
    pub up: Option<Triple>,
    pub near: Option<Real>,
    pub far: Option<Real>,
}

/// The section `camera`: the eye, the point looked at, the field of view,
/// the up vector and the two planes, each where the section gives it.
pub open spec fn as_camera(section: Json) -> Result<CameraRecord, SceneError> {
    match as_optional_triple(member_of(section, "eye"@), "camera->eye") {
        Err(e) => Err(e),
        Ok(eye) => match as_optional_triple(member_of(section, "lookat"@), "camera->lookat") {
            Err(e) => Err(e),
            Ok(lookat) => match as_optional_real(member_of(section, "fov"@), "camera->fov") {
                Err(e) => Err(e),
                Ok(fov) => match as_optional_triple(member_of(section, "up"@), "camera->up") {
                    Err(e) => Err(e),
                    Ok(up) => match as_optional_real(member_of(section, "near"@), "camera->near") {
                        Err(e) => Err(e),
                        Ok(near) => match as_optional_real(
                            member_of(section, "far"@),
                            "camera->far",
                        ) {
                            Err(e) => Err(e),
                            Ok(far) => Ok(CameraRecord { eye, lookat, fov, up, near, far }),
                        },
                    },
                },
            },
        },
    }
}

/// Reads the section `camera`.
pub fn parse_camera(section: &Json) -> (r: Result<CameraRecord, SceneError>)
    ensures
        r == as_camera(*section),
{
    let eye = match read_optional_triple(section.member("eye"), "camera->eye") {
        Ok(eye) => eye,
        Err(e) => {
            return Err(e);
        },
    };
    let lookat = match read_optional_triple(section.member("lookat"), "camera->lookat") {
        Ok(lookat) => lookat,
        Err(e) => {
            return Err(e);
        },
    };
    let fov = match read_optional_real(section.member("fov"), "camera->fov") {
        Ok(fov) => fov,
        Err(e) => {
            return Err(e);
        },
    };
    let up = match read_optional_triple(section.member("up"), "camera->up") {
        Ok(up) => up,
        Err(e) => {
            return Err(e);
        },
    };
    let near = match read_optional_real(section.member("near"), "camera->near") {
        Ok(near) => near,
        Err(e) => {
            return Err(e);
        },
    };
    let far = match read_optional_real(section.member("far"), "camera->far") {
        Ok(far) => far,
        Err(e) => {
            return Err(e);
        },
    };
    Ok(CameraRecord { eye, lookat, fov, up, near, far })
}

/// One material of the section `materials`.
pub struct MaterialRecord<'a> {
    pub name: &'a String,
    pub typ: MaterialType,
    pub diffuse: Triple,
    pub emission: Option<Triple>,
}

/// A material: its name, its kind, its diffuse color and, where given, its
/// emission.
pub open spec fn as_material(json: Json) -> Result<MaterialRecord<'static>, SceneError> {
    match as_text(member_of(json, "name"@), "material->name") {
        Err(e) => Err(e),
        Ok(name) => match as_text(member_of(json, "type"@), "material->type") {
            Err(e) => Err(e),
            Ok(tag) => match MaterialType::tagged(tag@) {
                None => Err(SceneError::UnknownTag("material->type")),
                Some(typ) => match as_triple(member_of(json, "diffuse"@), "material->diffuse") {
                    Err(e) => Err(e),
                    Ok(diffuse) => match as_optional_triple(
                        member_of(json, "emission"@),
                        "material->emission",
                    ) {
                        Err(e) => Err(e),
                        Ok(emission) => Ok(MaterialRecord { name: &name, typ, diffuse, emission }),
                    },
                },
            },
        },
    }
}

/// Reads one material.
pub fn parse_material<'a>(json: &'a Json) -> (r: Result<MaterialRecord<'a>, SceneError>)
    ensures
        r == as_material(*json),
{
    let name = match read_text(json.member("name"), "material->name") {
        Ok(name) => name,
        Err(e) => {
            return Err(e);
        },
    };
    let tag = match read_text(json.member("type"), "material->type") {
        Ok(tag) => tag,
        Err(e) => {
            return Err(e);
        },
    };
    let typ = match MaterialType::from_tag(tag.as_str()) {
        Some(typ) => typ,
        None => {
            return Err(SceneError::UnknownTag("material->type"));
        },
    };
    let diffuse = match read_triple(json.member("diffuse"), "material->diffuse") {
        Ok(diffuse) => diffuse,
        Err(e) => {
            return Err(e);
        },
    };
    let emission = match read_optional_triple(json.member("emission"), "material->emission") {
        Ok(emission) => emission,
        Err(e) => {
            return Err(e);
        },
    };
    Ok(MaterialRecord { name, typ, diffuse, emission })
}

/// Reads the section `materials`: a list of materials.
pub fn parse_materials<'a>(section: &'a Json) -> (r: Result<Vec<MaterialRecord<'a>>, SceneError>)
    ensures
        same_items(r, as_list(|json: Json| as_material(json), Some(*section), "materials")),
{
    read_list(Some(section), "materials", parse_material, Ghost(|json: Json| as_material(json)))
}

/// One light of the section `lights`.
#[derive(Clone, Copy, Debug, PartialEq, Eq)]
pub struct LightRecord {
    pub typ: LightType,
    pub intensity: Triple,
    pub position: Triple,
}

/// A light: its kind, its intensity and its position.
pub open spec fn as_light(json: Json) -> Result<LightRecord, SceneError> {
    match as_text(member_of(json, "type"@), "light->type") {
        Err(e) => Err(e),
        Ok(tag) => match LightType::tagged(tag@) {
            None => Err(SceneError::UnknownTag("light->type")),
            Some(typ) => match as_triple(member_of(json, "intensity"@), "light->intensity") {
                Err(e) => Err(e),
                Ok(intensity) => match as_triple(member_of(json, "position"@), "light->position") {
                    Err(e) => Err(e),
                    Ok(position) => Ok(LightRecord { typ, intensity, position }),
                },
            },
        },
    }
}

/// Reads one light.
pub fn parse_light(json: &Json) -> (r: Result<LightRecord, SceneError>)
    ensures
        r == as_light(*json),
{
    let tag = match read_text(json.member("type"), "light->type") {
        Ok(tag) => tag,
        Err(e) => {
            return Err(e);
        },
    };
    let typ = match LightType::from_tag(tag.as_str()) {
        Some(typ) => typ,
        None => {
            return Err(SceneError::UnknownTag("light->type"));
        },
    };
    let intensity = match read_triple(json.member("intensity"), "light->intensity") {
        Ok(intensity) => intensity,
        Err(e) => {
            return Err(e);
        },
    };
    let position = match read_triple(json.member("position"), "light->position") {
        Ok(position) => position,
        Err(e) => {
            return Err(e);
        },
    };
    Ok(LightRecord { typ, intensity, position })
}

/// Reads the section `lights`: a list of lights.
pub fn parse_lights(section: &Json) -> (r: Result<Vec<LightRecord>, SceneError>)
    ensures
        same_items(r, as_list(|json: Json| as_light(json), Some(*section), "lights")),
{
    read_list(Some(section), "lights", parse_light, Ghost(|json: Json| as_light(json)))
}

/// One step of the way from a shape's own space to the world.
#[derive(Clone, Copy, Debug, PartialEq, Eq)]
pub enum TransformRecord {
    Translate(Triple),
    Scale(Triple),
}

/// A transformation: `translate` or `scale`, each by a `delta`.
pub open spec fn as_transformation(json: Json) -> Result<TransformRecord, SceneError> {
    match as_text(member_of(json, "type"@), "transformation->type") {
        Err(e) => Err(e),
        Ok(tag) => if tag@ == "translate"@ {
            match as_triple(member_of(json, "delta"@), "transformation->translate->delta") {
                Ok(delta) => Ok(TransformRecord::Translate(delta)),
                Err(e) => Err(e),
            }
        } else if tag@ == "scale"@ {
            match as_triple(member_of(json, "delta"@), "transformation->scale->delta") {
                Ok(delta) => Ok(TransformRecord::Scale(delta)),
                Err(e) => Err(e),
            }
        } else {
            Err(SceneError::UnknownTag("transformation->type"))
        },
    }
}

/// Reads one transformation.
pub fn parse_transformation(json: &Json) -> (r: Result<TransformRecord, SceneError>)
    ensures
        r == as_transformation(*json),
{
    let tag = match read_text(json.member("type"), "transformation->type") {
        Ok(tag) => tag,
        Err(e) => {
            return Err(e);
        },
    };
    if is_word(tag.as_str(), "translate") {
        match read_triple(json.member("delta"), "transformation->translate->delta") {
            Ok(delta) => Ok(TransformRecord::Translate(delta)),
            Err(e) => Err(e),
        }
    } else if is_word(tag.as_str(), "scale") {
        match read_triple(json.member("delta"), "transformation->scale->delta") {
            Ok(delta) => Ok(TransformRecord::Scale(delta)),
            Err(e) => Err(e),
        }
    } else {
        Err(SceneError::UnknownTag("transformation->type"))
    }
}

/// Reads the transformations of a shape: a list, applied from the first on.
pub fn parse_transformations(list: &Json) -> (r: Result<Vec<TransformRecord>, SceneError>)
    ensures
        same_items(
            r,
            as_list(|json: Json| as_transformation(json), Some(*list), "transformations"),
        ),
{
    read_list(
        Some(list),
        "transformations",
        parse_transformation,
        Ghost(|json: Json| as_transformation(json)),
    )
}

/// A vertex of a mesh: three numbers.
pub open spec fn as_vertex(json: Json) -> Result<Triple, SceneError> {
    as_triple(Some(json), "shape->vertices")
}

fn parse_vertex(json: &Json) -> (r: Result<Triple, SceneError>)
    ensures
        r == as_vertex(*json),
{
    read_triple(Some(json), "shape->vertices")
}

/// Reads the vertices of a mesh: a list of points.
pub fn parse_vertices(list: &Json) -> (r: Result<Vec<Triple>, SceneError>)
    ensures
        same_items(r, as_list(|json: Json| as_vertex(json), Some(*list), "shape->vertices")),
{
    read_list(Some(list), "shape->vertices", parse_vertex, Ghost(|json: Json| as_vertex(json)))
}

/// An index of a mesh: a count.
pub open spec fn as_index(json: Json) -> Result<usize, SceneError> {
    as_count(Some(json), "shape->indices")
}

fn parse_index(json: &Json) -> (r: Result<usize, SceneError>)
    ensures
        r == as_index(*json),
{
    read_count(Some(json), "shape->indices")
}

/// Reads the indices of a mesh: a list of counts.
pub fn parse_indices(list: &Json) -> (r: Result<Vec<usize>, SceneError>)
    ensures
        same_items(r, as_list(|json: Json| as_index(json), Some(*list), "shape->indices")),
{
    read_list(Some(list), "shape->indices", parse_index, Ghost(|json: Json| as_index(json)))
}

/// One shape of the section `shapes`. Its lists are handed out as they
/// stand in the document: `parse_transformations`, `parse_vertices` and
/// `parse_indices` read them.
pub struct ShapeRecord<'a> {
    pub typ: ShapeType,
    pub material: &'a String,
    /// The center of a sphere, where the shape gives it.
    pub position: Option<Triple>,
    /// The radius of a sphere.
    pub radius: Option<Real>,
    /// The vertices of a mesh.
    pub vertices: Option<&'a Json>,
    /// The indices of a mesh.
    pub indices: Option<&'a Json>,
    pub transformations: Option<&'a Json>,
}

/// The field where it is there, `None` where it is not.
pub open spec fn if_present(v: Option<Json>) -> Option<Json> {
    if present(v) {
        v
    } else {
        None
    }
}

/// A shape: its kind and its material; a sphere has a radius and may have a
/// position, a mesh has vertices and indices; either may have
/// transformations.
pub open spec fn as_shape(json: Json) -> Result<ShapeRecord<'static>, SceneError> {
    match as_text(member_of(json, "type"@), "shape->type") {
        Err(e) => Err(e),
        Ok(tag) => match ShapeType::tagged(tag@) {
            None => Err(SceneError::UnknownTag("shape->type")),
            Some(typ) => match as_text(member_of(json, "material"@), "shape->material") {
                Err(e) => Err(e),
                Ok(material) => match typ {
                    ShapeType::Sphere => match as_optional_triple(
                        member_of(json, "position"@),
                        "shape->position",
                    ) {
                        Err(e) => Err(e),
                        Ok(position) => match as_real(
                            member_of(json, "radius"@),
                            "shape->radius",
                        ) {
                            Err(e) => Err(e),
                            Ok(radius) => Ok(
                                ShapeRecord {
                                    typ,
                                    material: &material,
                                    position,
                                    radius: Some(radius),
                                    vertices: None,
                                    indices: None,
                                    transformations: as_ref(
                                        if_present(member_of(json, "transformations"@)),
                                    ),
                                },
                            ),
                        },
                    },
                    ShapeType::Mesh => if !present(member_of(json, "vertices"@)) {
                        Err(SceneError::Field("shape->vertices"))
                    } else if !present(member_of(json, "indices"@)) {
                        Err(SceneError::Field("shape->indices"))
                    } else {
                        Ok(
                            ShapeRecord {
                                typ,
                                material: &material,
                                position: None,
                                radius: None,
                                vertices: as_ref(member_of(json, "vertices"@)),
                                indices: as_ref(member_of(json, "indices"@)),
                                transformations: as_ref(
                                    if_present(member_of(json, "transformations"@)),
                                ),
                            },
                        )
                    },
                },
            },
        },
    }
}

/// A value that may be missing as a reference that may be missing.
pub open spec fn as_ref(v: Option<Json>) -> Option<&'static Json> {
    match v {
        Some(json) => Some(&json),
        None => None,
    }
}

fn keep_if_present<'a>(v: Option<&'a Json>) -> (r: Option<&'a Json>)
    ensures
        r == as_ref(if_present(val(v))),
{
    if is_present(v) {
        v
    } else {
        None
    }
}

/// Reads one shape.
pub fn parse_shape<'a>(json: &'a Json) -> (r: Result<ShapeRecord<'a>, SceneError>)
    ensures
        r == as_shape(*json),
{
    let tag = match read_text(json.member("type"), "shape->type") {
        Ok(tag) => tag,
        Err(e) => {
            return Err(e);
        },
    };
    let typ = match ShapeType::from_tag(tag.as_str()) {
        Some(typ) => typ,
        None => {
            return Err(SceneError::UnknownTag("shape->type"));
        },
    };
    let material = match read_text(json.member("material"), "shape->material") {
        Ok(material) => material,
        Err(e) => {
            return Err(e);
        },
    };
    match typ {
        ShapeType::Sphere => {
            let position = match read_optional_triple(json.member("position"), "shape->position") {
                Ok(position) => position,
                Err(e) => {
                    return Err(e);
                },
            };
            let radius = match read_real(json.member("radius"), "shape->radius") {
                Ok(radius) => radius,
                Err(e) => {
                    return Err(e);
                },
            };
            Ok(
                ShapeRecord {
                    typ,
                    material,
                    position,
                    radius: Some(radius),
                    vertices: None,
                    indices: None,
                    transformations: keep_if_present(json.member("transformations")),
                },
            )
        },
        ShapeType::Mesh => {
            let vertices = json.member("vertices");
            if !is_present(vertices) {
                return Err(SceneError::Field("shape->vertices"));
            }
            let indices = json.member("indices");
            if !is_present(indices) {
                return Err(SceneError::Field("shape->indices"));
            }
            Ok(
                ShapeRecord {
                    typ,
                    material,
                    position: None,
                    radius: None,
                    vertices,
                    indices,
                    transformations: keep_if_present(json.member("transformations")),
                },
            )
        },
    }
}

/// Reads the section `shapes`: a list of shapes.
pub fn parse_shapes<'a>(section: &'a Json) -> (r: Result<Vec<ShapeRecord<'a>>, SceneError>)
    ensures
        same_items(r, as_list(|json: Json| as_shape(json), Some(*section), "shapes")),
{
    read_list(Some(section), "shapes", parse_shape, Ghost(|json: Json| as_shape(json)))
}

/// What a scene document holds, section by section.
pub struct SceneRecord<'a> {
    pub global: Option<GlobalRecord<'a>>,
    pub sampler: Option<SamplerRecord>,
    pub integrator: Option<IntegratorRecord>,
    pub camera: Option<CameraRecord>,
    pub materials: Vec<MaterialRecord<'a>>,
    pub shapes: Vec<ShapeRecord<'a>>,
    pub lights: Vec<LightRecord>,
}

/// A scene record with its lists as sequences.
pub struct SceneModel {
    pub global: Option<GlobalRecord<'static>>,
    pub sampler: Option<SamplerRecord>,
    pub integrator: Option<IntegratorRecord>,
    pub camera: Option<CameraRecord>,
    pub materials: Seq<MaterialRecord<'static>>,
    pub shapes: Seq<ShapeRecord<'static>>,
    pub lights: Seq<LightRecord>,
}

impl<'a> View for SceneRecord<'a> {
    type V = SceneModel;

    open spec fn view(&self) -> SceneModel {
        SceneModel {
            global: self.global,
            sampler: self.sampler,
            integrator: self.integrator,
            camera: self.camera,
            materials: self.materials@,
            shapes: self.shapes@,
            lights: self.lights@,
        }
    }
}

/// A section that the document may leave out, as `read` reads it.
pub open spec fn as_section<T>(v: Option<Json>, read: spec_fn(Json) -> Result<T, SceneError>)
    -> Result<Option<T>, SceneError> {
    match v {
        Some(section) => if present(v) {
            match read(section) {
                Ok(x) => Ok(Some(x)),
                Err(e) => Err(e),
            }
        } else {
            Ok(None)
        },
        None => Ok(None),
    }
}

/// A list section that the document may leave out: empty then.
pub open spec fn as_list_section<T>(
    v: Option<Json>,
    item: spec_fn(Json) -> Result<T, SceneError>,
    name: &'static str,
) -> Result<Seq<T>, SceneError> {
    if present(v) {
        as_list(item, v, name)
    } else {
        Ok(Seq::empty())
    }
}

/// The sampler of a document: the section `sampler` where it is there and
/// names a type.
pub open spec fn as_sampler_section(v: Option<Json>) -> Result<Option<SamplerRecord>, SceneError> {
    match as_section(v, |section: Json| as_sampler(section)) {
        Ok(Some(found)) => Ok(found),
        Ok(None) => Ok(None),
        Err(e) => Err(e),
    }
}

/// The integrator of a document: the section `integrator` where it is there
/// and names a type.
pub open spec fn as_integrator_section(v: Option<Json>) -> Result<
    Option<IntegratorRecord>,
    SceneError,
> {
    match as_section(v, |section: Json| as_integrator(section)) {
        Ok(Some(found)) => Ok(found),
        Ok(None) => Ok(None),
        Err(e) => Err(e),
    }
}

/// The scene that a document describes: its sections `global`, `sampler`,
/// `integrator`, `camera`, `materials`, `shapes` and `lights`, each where
/// the document has it. Of several wrong sections the first in this order
/// is reported.
pub open spec fn as_scene(json: Json) -> Result<SceneModel, SceneError> {
    match as_section(member_of(json, "global"@), |section: Json| as_global(section)) {
        Err(e) => Err(e),
        Ok(global) => match as_sampler_section(member_of(json, "sampler"@)) {
            Err(e) => Err(e),
            Ok(sampler) => match as_integrator_section(member_of(json, "integrator"@)) {
                Err(e) => Err(e),
                Ok(integrator) => match as_section(
                    member_of(json, "camera"@),
                    |section: Json| as_camera(section),
                ) {
                    Err(e) => Err(e),
                    Ok(camera) => match as_list_section(
                        member_of(json, "materials"@),
                        |item: Json| as_material(item),
                        "materials",
                    ) {
                        Err(e) => Err(e),
                        Ok(materials) => match as_list_section(
                            member_of(json, "shapes"@),
                            |item: Json| as_shape(item),
                            "shapes",
                        ) {
                            Err(e) => Err(e),
                            Ok(shapes) => match as_list_section(
                                member_of(json, "lights"@),
                                |item: Json| as_light(item),
                                "lights",
                            ) {
                                Err(e) => Err(e),
                                Ok(lights) => Ok(
                                    SceneModel {
                                        global,
                                        sampler,
                                        integrator,
                                        camera,
                                        materials,
                                        shapes,
                                        lights,
                                    },
                                ),
                            },
                        },
                    },
                },
            },
        },
    }
}

/// Reads a scene document.
pub fn parse_scene<'a>(json: &'a Json) -> (r: Result<SceneRecord<'a>, SceneError>)
    ensures
        r is Ok ==> as_scene(*json) == Ok::<SceneModel, SceneError>(r->Ok_0@),
        r is Err ==> as_scene(*json) == Err::<SceneModel, SceneError>(r->Err_0),
{
    let global = match json.member("global") {
        Some(section) => if is_present(Some(section)) {
            match parse_global(section) {
                Ok(global) => Some(global),
                Err(e) => {
                    return Err(e);
                },
            }
        } else {
            None
        },
        None => None,
    };
    let sampler = match json.member("sampler") {
        Some(section) => if is_present(Some(section)) {
            match parse_sampler(section) {
                Ok(sampler) => sampler,
                Err(e) => {
                    return Err(e);
                },
            }
        } else {
            None
        },
        None => None,
    };
    let integrator = match json.member("integrator") {
        Some(section) => if is_present(Some(section)) {
            match parse_integrator(section) {
                Ok(integrator) => integrator,
                Err(e) => {
                    return Err(e);
                },
            }
        } else {
            None
        },
        None => None,
    };
    let camera = match json.member("camera") {
        Some(section) => if is_present(Some(section)) {
            match parse_camera(section) {
                Ok(camera) => Some(camera),
                Err(e) => {
                    return Err(e);
                },
            }
        } else {
            None
        },
        None => None,
    };
    let materials = match json.member("materials") {
        Some(section) => if is_present(Some(section)) {
            match parse_materials(section) {
                Ok(materials) => materials,
                Err(e) => {
                    return Err(e);
                },
            }
        } else {
            Vec::new()
        },
        None => Vec::new(),
    };
    let shapes = match json.member("shapes") {
        Some(section) => if is_present(Some(section)) {
            match parse_shapes(section) {
                Ok(shapes) => shapes,
                Err(e) => {
                    return Err(e);
                },
            }
        } else {
            Vec::new()
        },
        None => Vec::new(),
    };
    let lights = match json.member("lights") {
        Some(section) => if is_present(Some(section)) {
            match parse_lights(section) {
                Ok(lights) => lights,
                Err(e) => {
                    return Err(e);
                },
            }
        } else {
            Vec::new()
        },
        None => Vec::new(),
    };
    Ok(SceneRecord { global, sampler, integrator, camera, materials, shapes, lights })
}

} // verus!
