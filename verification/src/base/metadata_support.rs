//! Metadata storage: the interface of objects that carry a string-keyed
//! store of simple values.

use vstd::prelude::*;

use crate::base::data_box::Value;
use crate::base::data_box::ValueModel;

verus! {

/// Objects that carry a string-keyed metadata store.
///
/// In contracts the store reads as a map from key text to value shape.
pub trait MetadataSupport {
    /// The metadata map this object carries.
    spec fn metadata(&self) -> Map<Seq<char>, ValueModel>;

    /// Read the metadata value under `key`; absent when the key holds
    /// nothing.
    fn get_metadata(&self, key: &str) -> (r: Option<Value>)
        ensures
            match r {
                Some(v) => self.metadata().contains_key(key@) && v@ == self.metadata()[key@],
                None => !self.metadata().contains_key(key@),
            },
    ;

    /// Store `value` under `key` in the metadata, replacing whatever the key
    /// held.
    fn set_metadata(&mut self, key: &str, value: Value)
        ensures
            final(self).metadata() == old(self).metadata().insert(key@, value@),
    ;

    /// Drop whatever the metadata holds under `key`.
    fn erase_metadata(&mut self, key: &str)
        ensures
            final(self).metadata() == old(self).metadata().remove(key@),
    ;

    /// Drop all metadata.
    fn clear_metadata(&mut self)
        ensures
            final(self).metadata() == Map::<Seq<char>, ValueModel>::empty(),
    ;
}

} // verus!
