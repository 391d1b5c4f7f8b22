//! The declared interface of a service and the checks made on it before
//! anything is built from it.

use vstd::prelude::*;
use vstd::string::*;

use crate::token::{token_views, Token, TokenView};

verus! {

/// One parameter of a method: its name, and its type as it was written.
#[derive(Clone, Debug)]
pub struct Param {
    pub name: String,
    pub ty: Vec<Token>,
}

/// A parameter as a mathematical value.
pub struct ParamView {
    pub name: Seq<char>,
    pub ty: Seq<TokenView>,
}

impl View for Param {
    type V = ParamView;

    open spec fn view(&self) -> ParamView {
        ParamView { name: self.name@, ty: token_views(self.ty@) }
    }
}

/// A declared method as a mathematical value.
pub struct MethodSpecView {
    pub name: Seq<char>,
    pub params: Seq<ParamView>,
}

/// A declared service as a mathematical value.
pub struct ServiceSpecView {
    pub name: Seq<char>,
    pub methods: Seq<MethodSpecView>,
}

/// A method as declared: a name and an ordered list of typed parameters.
/// Methods return nothing.
#[derive(Clone, Debug)]
pub struct MethodSpec {
    pub name: String,
    pub params: Vec<Param>,
}

/// A service as declared: a name and its methods, in declaration order.
#[derive(Clone, Debug)]
pub struct ServiceSpec {
    pub name: String,
    pub methods: Vec<MethodSpec>,
}

/// Why a declared service cannot be built.
#[derive(Clone, Copy, Debug, PartialEq, Eq, Structural)]
pub enum DefinitionError {
    /// The method at `index` is named like the operation that binds a handler.
    ReservedName { index: usize },
    /// The methods at `first` and `second` have the same name.
    DuplicateMethod { first: usize, second: usize },
    /// The methods at `first` and `second` have different names and the same
    /// wire tag.
    TagCollision { first: usize, second: usize },
}

/// The method name that a service may not declare: binding a handler to a
/// service goes by this name.
pub open spec fn reserved_name() -> Seq<char> {
    "serve"@
}

/// `names[i]` is the reserved name and nothing before it is.
pub open spec fn first_reserved(names: Seq<Seq<char>>, i: int) -> bool {
    &&& 0 <= i < names.len()
    &&& names[i] == reserved_name()
    &&& forall|k: int| 0 <= k < i ==> names[k] != reserved_name()
}

/// Some name is the reserved name.
pub open spec fn has_reserved(names: Seq<Seq<char>>) -> bool {
    exists|i: int| 0 <= i < names.len() && names[i] == reserved_name()
}

/// The same item stands at two places, `i` before `j`.
pub open spec fn repeats<T>(items: Seq<T>, i: int, j: int) -> bool {
    0 <= i < j < items.len() && items[i] == items[j]
}

/// Some item stands at two places.
pub open spec fn has_repeat<T>(items: Seq<T>) -> bool {
    exists|i: int, j: int| repeats(items, i, j)
}

/// `(i, j)` is the repeat that a reader meets first: no repeat ends before
/// `j`, and of those that end at `j` none starts before `i`.
pub open spec fn first_repeat<T>(items: Seq<T>, i: int, j: int) -> bool {
    &&& repeats(items, i, j)
    &&& forall|a: int, b: int| #[trigger] repeats(items, a, b) ==> j < b || (j == b && i <= a)
}

/// What the validator answers on a list of method names: a reserved name is
/// reported before any repeated one, and each by its first occurrence.
pub open spec fn validated(names: Seq<Seq<char>>, refusal: Option<DefinitionError>) -> bool {
    match refusal {
        None => !has_reserved(names) && !has_repeat(names),
        Some(DefinitionError::ReservedName { index }) => first_reserved(names, index as int),
        Some(DefinitionError::DuplicateMethod { first, second }) => !has_reserved(names)
            && first_repeat(names, first as int, second as int),
        Some(DefinitionError::TagCollision { .. }) => false,
    }
}

/// The error of a result, if it is one.
pub open spec fn refusal<T>(r: Result<T, DefinitionError>) -> Option<DefinitionError> {
    match r {
        Ok(_) => None,
        Err(e) => Some(e),
    }
}

/// The validator's answer depends on the names alone.
pub proof fn lemma_validated_unique(
    names: Seq<Seq<char>>,
    a: Option<DefinitionError>,
    b: Option<DefinitionError>,
)
    requires
        validated(names, a),
        validated(names, b),
    ensures
        a == b,
{
    if let Some(DefinitionError::DuplicateMethod { first, second }) = a {
        assert(repeats(names, first as int, second as int));
    }
    if let Some(DefinitionError::DuplicateMethod { first, second }) = b {
        assert(repeats(names, first as int, second as int));
    }
    if let Some(DefinitionError::ReservedName { index }) = a {
        assert(names[index as int] == reserved_name());
    }
    if let Some(DefinitionError::ReservedName { index }) = b {
        assert(names[index as int] == reserved_name());
    }
}

/// Reserved-name rejection: a declaration with a method of the reserved name
/// is refused for that name, at its first occurrence, whatever else is wrong
/// with it.
pub proof fn lemma_reserved_name_rejected(names: Seq<Seq<char>>, refusal: Option<DefinitionError>)
    requires
        validated(names, refusal),
        has_reserved(names),
    ensures
        refusal matches Some(DefinitionError::ReservedName { index }) && first_reserved(
            names,
            index as int,
        ),
{
}

impl View for MethodSpec {
    type V = MethodSpecView;

    open spec fn view(&self) -> MethodSpecView {
        MethodSpecView {
            name: self.name@,
            params: Seq::new(self.params@.len(), |i: int| self.params@[i]@),
        }
    }
}

impl View for ServiceSpec {
    type V = ServiceSpecView;

    open spec fn view(&self) -> ServiceSpecView {
        ServiceSpecView {
            name: self.name@,
            methods: Seq::new(self.methods@.len(), |i: int| self.methods@[i]@),
        }
    }
}

impl ServiceSpec {
    /// The method names, in declaration order.
    pub open spec fn names(&self) -> Seq<Seq<char>> {
        Seq::new(self.methods@.len(), |i: int| self.methods@[i].name@)
    }

    /// No method has the reserved name and no two have the same name.
    pub open spec fn valid(&self) -> bool {
        !has_reserved(self.names()) && !has_repeat(self.names())
    }
}

/// Checks a declared service: every method name is used once, and none is the
/// reserved name.
pub fn validate(spec: &ServiceSpec) -> (r: Result<(), DefinitionError>)
    ensures
        validated(spec.names(), refusal(r)),
        r is Ok <==> spec.valid(),
{
    let reserved = String::from_str("serve");
    let n = spec.methods.len();
    let mut k: usize = 0;
    while k < n
        invariant
            n == spec.methods@.len(),
            k <= n,
            reserved@ == reserved_name(),
            forall|a: int| 0 <= a < k ==> spec.names()[a] != reserved_name(),
        decreases n - k,
    {
        if spec.methods[k].name == reserved {
            assert(spec.names()[k as int] == reserved_name());
            return Err(DefinitionError::ReservedName { index: k });
        }
        k += 1;
    }
    let mut j: usize = 0;
    while j < n
        invariant
            n == spec.methods@.len(),
            j <= n,
            !has_reserved(spec.names()),
            forall|a: int, b: int| #[trigger] repeats(spec.names(), a, b) ==> j <= b,
        decreases n - j,
    {
        let mut i: usize = 0;
        while i < j
            invariant
                n == spec.methods@.len(),
                i <= j < n,
                !has_reserved(spec.names()),
                forall|a: int, b: int| #[trigger] repeats(spec.names(), a, b) ==> j <= b,
                forall|a: int| 0 <= a < i ==> spec.names()[a] != spec.names()[j as int],
            decreases j - i,
        {
            if spec.methods[i].name == spec.methods[j].name {
                assert(repeats(spec.names(), i as int, j as int));
                return Err(DefinitionError::DuplicateMethod { first: i, second: j });
            }
            i += 1;
        }
        j += 1;
    }
    Ok(())
}

} // verus!
