use vstd::prelude::*;

verus! {

/// The kind of value a scene parameter was expected to hold.
#[derive(Debug, Clone, Copy, PartialEq, Eq, Structural)]
pub enum ValueKind {
    Str,
    Int,
    /// An integer or a fractional number.
    Number,
    Other,
}

/// The kind of named scene resource an error is about.
#[derive(Debug, Clone, Copy, PartialEq, Eq, Structural)]
pub enum ResourceKind {
    Texture,
    Primitive,
    Surface,
    Material,
    Medium,
    Instance,
}

/// Why a scene object could not be loaded from its parameters.
/// `env` is the name of the parameter block being read when the error arose.
#[derive(Debug, PartialEq, Eq)]
pub enum LoadError {
    MissingKey { env: String, key: String },
    WrongType { env: String, key: String, expected: ValueKind },
    UnknownType { env: String, ty: String },
    DuplicateName { kind: ResourceKind, name: String },
    MissingResource { kind: ResourceKind, name: String },
}

/// [`LoadError`] with its strings taken as character sequences.
pub enum LoadErrorView {
    MissingKey { env: Seq<char>, key: Seq<char> },
    WrongType { env: Seq<char>, key: Seq<char>, expected: ValueKind },
    UnknownType { env: Seq<char>, ty: Seq<char> },
    DuplicateName { kind: ResourceKind, name: Seq<char> },
    MissingResource { kind: ResourceKind, name: Seq<char> },
}

impl View for LoadError {
    type V = LoadErrorView;

    open spec fn view(&self) -> LoadErrorView {
        match self {
            LoadError::MissingKey { env, key } => LoadErrorView::MissingKey { env: env@, key: key@ },
            LoadError::WrongType { env, key, expected } => LoadErrorView::WrongType {
                env: env@,
                key: key@,
                expected: *expected,
            },
            LoadError::UnknownType { env, ty } => LoadErrorView::UnknownType { env: env@, ty: ty@ },
            LoadError::DuplicateName { kind, name } => LoadErrorView::DuplicateName {
                kind: *kind,
                name: name@,
            },
            LoadError::MissingResource { kind, name } => LoadErrorView::MissingResource {
                kind: *kind,
                name: name@,
            },
        }
    }
}

/// A result whose error is taken by its view.
pub open spec fn result_view<T>(r: Result<T, LoadError>) -> Result<T, LoadErrorView> {
    match r {
        Ok(v) => Ok(v),
        Err(e) => Err(e@),
    }
}

/// A result whose value and error are both taken by their views.
pub open spec fn viewed_result<T: View>(r: Result<T, LoadError>) -> Result<T::V, LoadErrorView> {
    match r {
        Ok(v) => Ok(v@),
        Err(e) => Err(e@),
    }
}

} // verus!
