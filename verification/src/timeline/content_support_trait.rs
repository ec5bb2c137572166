//! Content storage: the interface of objects that carry one optional value
//! as their content.

use vstd::prelude::*;

use crate::base::data_box::Value;
use crate::base::data_box::ValueModel;

verus! {

/// Objects that carry one optional content value. Setting a new content
/// value discards the previous one.
pub trait ContentSupport {
    /// The content this object carries, if any.
    spec fn content_model(&self) -> Option<ValueModel>;

    /// Read the content, if any.
    fn get_content(&self) -> (r: Option<Value>)
        ensures
            match r {
                Some(v) => self.content_model() == Some(v@),
                None => self.content_model() is None,
            },
    ;

    /// Store `content`, discarding the previous content, if any.
    fn set_content(&mut self, content: Value)
        ensures
            final(self).content_model() == Some(content@),
    ;

    /// Drop the content, if any.
    fn clear_content(&mut self)
        ensures
            final(self).content_model() is None,
    ;
}

} // verus!
