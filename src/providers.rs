//! Sources of a request's method and path text.
use vstd::prelude::*;

verus! {

/// A value that can lend the text of a request path.
pub trait UrlPathProvider {
    /// The path text that `path_str` lends.
    spec fn spec_path(&self) -> Seq<char>;

    fn path_str(&self) -> (r: &str)
        ensures
            r@ == self.spec_path(),
    ;
}

/// A value that can lend the text of a request method.
pub trait HttpMethodProvider {
    /// The method text that `method_str` lends.
    spec fn spec_method(&self) -> Seq<char>;

    fn method_str(&self) -> (r: &str)
        ensures
            r@ == self.spec_method(),
    ;
}

impl<'a> UrlPathProvider for &'a str {
    open spec fn spec_path(&self) -> Seq<char> {
        (**self)@
    }

    fn path_str(&self) -> (r: &str) {
        *self
    }
}

impl UrlPathProvider for String {
    open spec fn spec_path(&self) -> Seq<char> {
        self@
    }

    fn path_str(&self) -> (r: &str) {
        self.as_str()
    }
}

impl<'a> HttpMethodProvider for &'a str {
    open spec fn spec_method(&self) -> Seq<char> {
        (**self)@
    }

    fn method_str(&self) -> (r: &str) {
        *self
    }
}

impl HttpMethodProvider for String {
    open spec fn spec_method(&self) -> Seq<char> {
        self@
    }

    fn method_str(&self) -> (r: &str) {
        self.as_str()
    }
}

} // verus!
