//! Resource descriptors, resource packs and their comparison keys.
use vstd::prelude::*;
use vstd::string::StringExecFns;
use crate::caseless::{caseless, caseless_of, chars_eq, opt_chars_eq, opt_view};

verus! {

/// The value of one named property of a resource or a pack.
pub enum PropertyValue {
    Int(i64),
    Str(String),
}

/// A named property.
pub struct Property {
    pub name: String,
    pub value: PropertyValue,
}

/// One file: its path, the archive that holds it if any, and its properties
/// (`file_size`, `hash_<algorithm>`, ...).
pub struct Resource {
    pub path: String,
    pub archive_path: Option<String>,
    pub properties: Vec<Property>,
}

/// A named collection of resources with the capture settings it was made with.
pub struct ResourcePack {
    pub name: String,
    pub with_file_size: bool,
    pub archives: Vec<String>,
    pub hashes: Vec<String>,
    pub properties: Vec<Property>,
    pub resources: Vec<Resource>,
}

/// The first property named `name` at index `i` or after.
pub open spec fn lookup_from(props: Seq<Property>, name: Seq<char>, i: int) -> Option<PropertyValue>
    decreases props.len() - i,
{
    if i < 0 || i >= props.len() {
        None
    } else if props[i].name@ == name {
        Some(props[i].value)
    } else {
        lookup_from(props, name, i + 1)
    }
}

/// The first property named `name`.
pub open spec fn lookup(props: Seq<Property>, name: Seq<char>) -> Option<PropertyValue> {
    lookup_from(props, name, 0)
}

/// The integer held by the property named `name`; absent if there is none or
/// it holds a string.
pub open spec fn int_prop(props: Seq<Property>, name: Seq<char>) -> Option<i64> {
    match lookup(props, name) {
        Some(PropertyValue::Int(n)) => Some(n),
        _ => None,
    }
}

/// The string held by the property named `name`; absent if there is none or
/// it holds an integer.
pub open spec fn str_prop(props: Seq<Property>, name: Seq<char>) -> Option<Seq<char>> {
    match lookup(props, name) {
        Some(PropertyValue::Str(s)) => Some(s@),
        _ => None,
    }
}

/// The view of an optional string.
pub open spec fn opt_str_view(o: Option<String>) -> Option<Seq<char>> {
    match o {
        Some(s) => Some(s@),
        None => None,
    }
}

/// The name of the property that holds the digest of `algorithm`.
pub open spec fn hash_prop_name(algorithm: Seq<char>) -> Seq<char> {
    "hash_"@ + algorithm
}

/// The comparison key of a resource: its folded archive path and folded path.
pub type KeyView = (Option<Seq<char>>, Seq<char>);

/// The comparison key of `r`.
pub open spec fn key_of(r: Resource) -> KeyView {
    (
        match r.archive_path {
            Some(a) => Some(caseless_of(a@)),
            None => None,
        },
        caseless_of(r.path@),
    )
}

/// The index of the property named `name`, if any.
fn find_property(props: &Vec<Property>, name: &String) -> (r: Option<usize>)
    ensures
        match r {
            Some(i) => i < props@.len() && lookup(props@, name@) == Some(props@[i as int].value),
            None => lookup(props@, name@) == None::<PropertyValue>,
        },
{
    let mut i: usize = props.len();
    let mut found: Option<usize> = None;
    while i > 0
        invariant
            i <= props@.len(),
            match found {
                Some(j) => j < props@.len() && lookup_from(props@, name@, i as int) == Some(
                    props@[j as int].value,
                ),
                None => lookup_from(props@, name@, i as int) == None::<PropertyValue>,
            },
        decreases i,
    {
        i = i - 1;
        if props[i].name == *name {
            found = Some(i);
        }
    }
    found
}

/// The integer property named `name`.
pub fn get_i64(props: &Vec<Property>, name: &String) -> (r: Option<i64>)
    ensures
        r == int_prop(props@, name@),
{
    match find_property(props, name) {
        Some(i) => match &props[i].value {
            PropertyValue::Int(n) => Some(*n),
            PropertyValue::Str(_) => None,
        },
        None => None,
    }
}

/// The string property named `name`.
pub fn get_str(props: &Vec<Property>, name: &String) -> (r: Option<String>)
    ensures
        opt_str_view(r) == str_prop(props@, name@),
{
    match find_property(props, name) {
        Some(i) => match &props[i].value {
            PropertyValue::Int(_) => None,
            PropertyValue::Str(s) => Some(s.clone()),
        },
        None => None,
    }
}

/// The name of the property that holds the digest of `algorithm`.
pub fn hash_property_name(algorithm: &String) -> (r: String)
    ensures
        r@ == hash_prop_name(algorithm@),
{
    "hash_".to_owned().concat(algorithm.as_str())
}

/// A computed comparison key.
pub struct ResourceKey {
    pub archive_path: Option<Vec<char>>,
    pub path: Vec<char>,
}

impl ResourceKey {
    pub open spec fn view(&self) -> KeyView {
        (opt_view(self.archive_path), self.path@)
    }

    /// Whether two keys are equal.
    pub fn same(&self, other: &ResourceKey) -> (r: bool)
        ensures
            r == (self.view() == other.view()),
    {
        opt_chars_eq(&self.archive_path, &other.archive_path) && chars_eq(&self.path, &other.path)
    }
}

impl Resource {
    /// The comparison key of this resource.
    pub fn key(&self) -> (k: ResourceKey)
        ensures
            k.view() == key_of(*self),
    {
        let archive_path = match &self.archive_path {
            Some(a) => Some(caseless(a.as_str())),
            None => None,
        };
        ResourceKey { archive_path, path: caseless(self.path.as_str()) }
    }
}

/// The keys of a list of resources.
pub fn keys_of(rs: &Vec<Resource>) -> (ks: Vec<ResourceKey>)
    ensures
        ks@.len() == rs@.len(),
        forall|i: int| 0 <= i < rs@.len() ==> #[trigger] ks@[i].view() == key_of(rs@[i]),
{
    let mut ks: Vec<ResourceKey> = Vec::new();
    let mut i: usize = 0;
    while i < rs.len()
        invariant
            i <= rs@.len(),
            ks@.len() == i,
            forall|j: int| 0 <= j < i ==> #[trigger] ks@[j].view() == key_of(rs@[j]),
        decreases rs@.len() - i,
    {
        ks.push(rs[i].key());
        i = i + 1;
    }
    ks
}

} // verus!
