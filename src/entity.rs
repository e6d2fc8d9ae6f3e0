use vstd::prelude::*;

verus! {

/// Namespace written into the `app` annotation of every entity of this library.
pub const APP_NAMESPACE: &'static str = "golem-images-0.1";

/// Number of blocks each entity lives for in the store.
pub const ENTITY_BTL: u64 = 25;

pub open spec fn app_namespace() -> Seq<char> {
    APP_NAMESPACE@
}

/// A text-valued annotation.
pub struct StringAnnotation {
    pub key: String,
    pub value: String,
}

/// An integer-valued annotation.
pub struct NumericAnnotation {
    pub key: String,
    pub value: u64,
}

impl View for StringAnnotation {
    type V = (Seq<char>, Seq<char>);

    open spec fn view(&self) -> (Seq<char>, Seq<char>) {
        (self.key@, self.value@)
    }
}

impl View for NumericAnnotation {
    type V = (Seq<char>, u64);

    open spec fn view(&self) -> (Seq<char>, u64) {
        (self.key@, self.value)
    }
}

pub open spec fn string_views(s: Seq<StringAnnotation>) -> Seq<(Seq<char>, Seq<char>)> {
    s.map_values(|a: StringAnnotation| a@)
}

pub open spec fn numeric_views(s: Seq<NumericAnnotation>) -> Seq<(Seq<char>, u64)> {
    s.map_values(|a: NumericAnnotation| a@)
}

impl StringAnnotation {
    pub fn new(key: &str, value: &str) -> (r: StringAnnotation)
        ensures
            r@ == (key@, value@),
    {
        StringAnnotation { key: key.to_string(), value: value.to_string() }
    }

    pub fn duplicate(&self) -> (r: StringAnnotation)
        ensures
            r@ == self@,
    {
        StringAnnotation { key: self.key.clone(), value: self.value.clone() }
    }
}

impl NumericAnnotation {
    pub fn new(key: &str, value: u64) -> (r: NumericAnnotation)
        ensures
            r@ == (key@, value),
    {
        NumericAnnotation { key: key.to_string(), value }
    }
}

/// What the store sees of one entity: payload, time to live and annotations.
pub struct EntityView {
    pub data: Seq<u8>,
    pub btl: u64,
    pub strings: Seq<(Seq<char>, Seq<char>)>,
    pub numbers: Seq<(Seq<char>, u64)>,
}

/// An entity ready to be written to the store.
pub struct EntityDraft {
    pub data: Vec<u8>,
    pub btl: u64,
    pub string_annotations: Vec<StringAnnotation>,
    pub numeric_annotations: Vec<NumericAnnotation>,
}

impl View for EntityDraft {
    type V = EntityView;

    open spec fn view(&self) -> EntityView {
        EntityView {
            data: self.data@,
            btl: self.btl,
            strings: string_views(self.string_annotations@),
            numbers: numeric_views(self.numeric_annotations@),
        }
    }
}

} // verus!
