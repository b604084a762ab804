use vstd::prelude::*;

use crate::engine::{
    ascii_result, conversion_view, to_ascii, to_unicode, unicode_result, ConversionErrors,
    ProcessingConfig,
};

verus! {

/// The argument of a to-ASCII query.
#[derive(Clone, Debug, PartialEq, Eq)]
pub struct InputToAscii {
    pub value: String,
}

/// The argument of a to-Unicode query.
#[derive(Clone, Debug, PartialEq, Eq)]
pub struct InputToUnicode {
    pub value: String,
}

/// A link of a resolver chain that answers the two normalization queries
/// itself, with the configuration it was built with, and leaves the rest to
/// the inner link.
#[derive(Debug)]
pub struct QueryMiddleware<M> {
    pub inner: M,
    pub config: ProcessingConfig,
}

/// An error of the chain: that of the inner link, passed on.
#[derive(Debug)]
pub enum QueryMiddlewareError<E> {
    MiddlewareError(E),
}

impl<E> QueryMiddlewareError<E> {
    pub fn from(src: E) -> (r: Self)
        ensures
            r == QueryMiddlewareError::MiddlewareError(src),
    {
        QueryMiddlewareError::MiddlewareError(src)
    }
}

impl<M> QueryMiddleware<M> {
    pub fn new(inner: M, config: ProcessingConfig) -> (r: Self)
        ensures
            r.inner == inner,
            r.config == config,
    {
        QueryMiddleware { inner, config }
    }

    pub fn inner(&self) -> (r: &M)
        ensures
            *r == self.inner,
    {
        &self.inner
    }

    /// The ACE form of the queried domain, or every fault found in it.
    pub fn resolve_to_ascii(&self, input: InputToAscii) -> (r: Result<String, ConversionErrors>)
        ensures
            conversion_view(r) == ascii_result(self.config, input.value@),
    {
        to_ascii(input.value.as_str(), self.config)
    }

    /// The Unicode form of the queried domain, with every fault found in it.
    pub fn resolve_to_unicode(&self, input: InputToUnicode) -> (r: (String, ConversionErrors))
        ensures
            (r.0@, r.1.errors@) == unicode_result(self.config, input.value@),
    {
        to_unicode(input.value.as_str(), self.config)
    }
}

} // verus!
