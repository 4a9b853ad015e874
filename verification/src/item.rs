//! Addresses.
//!
//! Every operation is scoped by an address of up to three levels: a
//! collection, a bucket inside it, an object inside the bucket. Which levels
//! are present decides what the operation works on.
use vstd::prelude::*;

verus! {

/// An address: the collection, and optionally the bucket and the object.
pub struct StoreItem(pub String, pub Option<String>, pub Option<String>);

/// An address as a plain value.
pub struct StoreItemView {
    pub collection: Seq<char>,
    pub bucket: Option<Seq<char>>,
    pub object: Option<Seq<char>>,
}

/// What an address names. An object without a bucket names nothing.
pub enum StoreItemScope<'a> {
    /// A whole collection.
    Collection(&'a String),
    /// One bucket of a collection.
    Bucket(&'a String, &'a String),
    /// One object of a bucket.
    Object(&'a String, &'a String, &'a String),
    /// No valid scope.
    Invalid,
}

impl StoreItemView {
    /// Whether the address names a whole collection.
    pub open spec fn is_collection(self) -> bool {
        self.bucket is None && self.object is None
    }

    /// Whether the address names one bucket.
    pub open spec fn is_bucket(self) -> bool {
        self.bucket is Some && self.object is None
    }

    /// Whether the address names one object.
    pub open spec fn is_object(self) -> bool {
        self.bucket is Some && self.object is Some
    }

    /// Whether the address has one of the three valid shapes.
    pub open spec fn is_valid(self) -> bool {
        self.bucket is Some || self.object is None
    }
}

impl View for StoreItem {
    type V = StoreItemView;

    open spec fn view(&self) -> StoreItemView {
        StoreItemView {
            collection: self.0@,
            bucket: match self.1 {
                Some(bucket) => Some(bucket@),
                None => None,
            },
            object: match self.2 {
                Some(object) => Some(object@),
                None => None,
            },
        }
    }
}

impl StoreItem {
    /// The address of a collection.
    pub fn collection(collection: String) -> (item: StoreItem)
        ensures
            item@.collection == collection@,
            item@.is_collection(),
    {
        StoreItem(collection, None, None)
    }

    /// The address of a bucket.
    pub fn bucket(collection: String, bucket: String) -> (item: StoreItem)
        ensures
            item@.collection == collection@,
            item@.bucket == Some(bucket@),
            item@.is_bucket(),
    {
        StoreItem(collection, Some(bucket), None)
    }

    /// The address of an object.
    pub fn object(collection: String, bucket: String, object: String) -> (item: StoreItem)
        ensures
            item@.collection == collection@,
            item@.bucket == Some(bucket@),
            item@.object == Some(object@),
            item@.is_object(),
    {
        StoreItem(collection, Some(bucket), Some(object))
    }

    /// Decides, once, what the address names.
    pub fn scope(&self) -> (scope: StoreItemScope<'_>)
        ensures
            match scope {
                StoreItemScope::Collection(collection) => self@.is_collection() && collection@
                    == self@.collection,
                StoreItemScope::Bucket(collection, bucket) => self@.is_bucket() && collection@
                    == self@.collection && Some(bucket@) == self@.bucket,
                StoreItemScope::Object(collection, bucket, object) => self@.is_object()
                    && collection@ == self@.collection && Some(bucket@) == self@.bucket && Some(
                    object@,
                ) == self@.object,
                StoreItemScope::Invalid => !self@.is_valid(),
            },
    {
        match (&self.1, &self.2) {
            (None, None) => StoreItemScope::Collection(&self.0),
            (Some(bucket), None) => StoreItemScope::Bucket(&self.0, bucket),
            (Some(bucket), Some(object)) => StoreItemScope::Object(&self.0, bucket, object),
            (None, Some(_)) => StoreItemScope::Invalid,
        }
    }
}

} // verus!
