//! Interned strings and qualified names.
//!
//! Every string stored in a node goes through the process-wide pool of the
//! `string_pool` crate. Verification treats a pooled string as an opaque value
//! whose text is a `Seq<char>`. The two functions that touch the pool and the
//! comparison of string slices are trusted; everything built on them is proved.

use vstd::prelude::*;

verus! {

/// A string held by the pool of the `string_pool` crate.
///
/// The pool's own string type is generic over a pool trait, so it is kept in a
/// private field of this opaque struct. Its text is [`interned_text`].
#[verifier::external_body]
pub struct InternedString {
    inner: string_pool::String,
}

/// The characters of a pooled string.
pub uninterp spec fn interned_text(s: InternedString) -> Seq<char>;

impl View for InternedString {
    type V = Seq<char>;

    open spec fn view(&self) -> Seq<char> {
        interned_text(*self)
    }
}

impl InternedString {
    /// Interns `s`: calls `string_pool::String::from(&str)`, which looks the
    /// bytes up in the global pool, inserts them when absent, and returns a
    /// handle to the pooled copy. Trusted: the handle's text is the text of `s`.
    #[verifier::external_body]
    pub(crate) fn from_str(s: &str) -> (r: InternedString)
        ensures
            interned_text(r) == s@,
    {
        InternedString { inner: string_pool::String::from(s) }
    }

    /// Borrows the pooled text: calls `string_pool::String::as_str`, which
    /// returns the pooled bytes as a `&str`. Trusted: the slice has the
    /// handle's text.
    #[verifier::external_body]
    pub(crate) fn as_slice(&self) -> (r: &str)
        ensures
            r@ == interned_text(*self),
    {
        self.inner.as_str()
    }
}

/// Compares two string slices with `str`'s `==`, which holds exactly when
/// both have the same characters. Trusted: the result is equality of the views.
#[verifier::external_body]
pub(crate) fn str_eq(a: &str, b: &str) -> (r: bool)
    ensures
        r == (a@ == b@),
{
    a == b
}

/// The mathematical value of a qualified name.
pub struct QNameView {
    pub namespace_uri: Option<Seq<char>>,
    pub local_part: Seq<char>,
}

/// A qualified name: an optional namespace URI and a local part.
///
/// Two names are equal when both parts are equal.
#[derive(Clone, Copy, Debug)]
pub struct QName<'a> {
    pub namespace_uri: Option<&'a str>,
    pub local_part: &'a str,
}

impl<'a> View for QName<'a> {
    type V = QNameView;

    open spec fn view(&self) -> QNameView {
        QNameView {
            namespace_uri: match self.namespace_uri {
                Some(uri) => Some(uri@),
                None => None,
            },
            local_part: self.local_part@,
        }
    }
}

impl<'a> QName<'a> {
    /// A name without a namespace.
    pub fn new(local_part: &'a str) -> (q: QName<'a>)
        ensures
            q@ == (QNameView { namespace_uri: None, local_part: local_part@ }),
    {
        QName { namespace_uri: None, local_part }
    }

    /// A name in the namespace `namespace_uri`.
    pub fn with_namespace_uri(namespace_uri: Option<&'a str>, local_part: &'a str) -> (q: QName<'a>)
        ensures
            q.namespace_uri == namespace_uri,
            q.local_part == local_part,
    {
        QName { namespace_uri, local_part }
    }

    /// Componentwise equality of two names.
    pub fn same_as(&self, other: &QName<'_>) -> (r: bool)
        ensures
            r == (self@ == other@),
    {
        let uris = match (self.namespace_uri, other.namespace_uri) {
            (Some(a), Some(b)) => str_eq(a, b),
            (None, None) => true,
            _ => false,
        };
        uris && str_eq(self.local_part, other.local_part)
    }
}

/// What can name an element or an attribute: a qualified name, or a string
/// slice, which is a local part without a namespace.
pub trait ToQName<'a>: Sized {
    /// The name that `self` stands for.
    spec fn qname(self) -> QNameView;

    /// Converts `self` into the name that it stands for.
    fn to_qname(self) -> (q: QName<'a>)
        ensures
            q@ == self.qname(),
    ;
}

impl<'a> ToQName<'a> for QName<'a> {
    open spec fn qname(self) -> QNameView {
        self@
    }

    fn to_qname(self) -> (q: QName<'a>) {
        self
    }
}

impl<'a> ToQName<'a> for &'a str {
    open spec fn qname(self) -> QNameView {
        QNameView { namespace_uri: None, local_part: self@ }
    }

    fn to_qname(self) -> (q: QName<'a>) {
        QName { namespace_uri: None, local_part: self }
    }
}

/// A qualified name whose parts live in the pool.
pub struct InternedQName {
    pub(crate) namespace_uri: Option<InternedString>,
    pub(crate) local_part: InternedString,
}

impl View for InternedQName {
    type V = QNameView;

    closed spec fn view(&self) -> QNameView {
        QNameView {
            namespace_uri: match self.namespace_uri {
                Some(uri) => Some(uri@),
                None => None,
            },
            local_part: self.local_part@,
        }
    }
}

impl InternedQName {
    /// Interns both parts of `q`.
    pub(crate) fn from_qname(q: QName<'_>) -> (r: InternedQName)
        ensures
            r@ == q@,
    {
        InternedQName {
            namespace_uri: match q.namespace_uri {
                Some(uri) => Some(InternedString::from_str(uri)),
                None => None,
            },
            local_part: InternedString::from_str(q.local_part),
        }
    }

    /// The name as borrowed slices.
    pub fn as_qname(&self) -> (q: QName<'_>)
        ensures
            q@ == self@,
    {
        QName {
            namespace_uri: match &self.namespace_uri {
                Some(uri) => Some(uri.as_slice()),
                None => None,
            },
            local_part: self.local_part.as_slice(),
        }
    }
}

/// The text of an optional pooled string.
pub open spec fn optional_text(s: Option<InternedString>) -> Option<Seq<char>> {
    match s {
        Some(text) => Some(text@),
        None => None,
    }
}

/// The text of an optional string slice.
pub open spec fn optional_str(s: Option<&str>) -> Option<Seq<char>> {
    match s {
        Some(text) => Some(text@),
        None => None,
    }
}

/// Borrows an optional pooled string as an optional slice.
pub(crate) fn optional_slice(s: &Option<InternedString>) -> (r: Option<&str>)
    ensures
        optional_str(r) == optional_text(*s),
{
    match s {
        Some(text) => Some(text.as_slice()),
        None => None,
    }
}

/// Interns an optional slice.
pub(crate) fn intern_optional(s: Option<&str>) -> (r: Option<InternedString>)
    ensures
        optional_text(r) == optional_str(s),
{
    match s {
        Some(text) => Some(InternedString::from_str(text)),
        None => None,
    }
}

} // verus!
