//! From a declared service to a built one: every method gets its wire tag,
//! and the names of the items generated for the service are fixed.

use convert_case::{Case, Casing};
use vstd::prelude::*;
use vstd::string::*;
use vstd::utf8::*;

use crate::wire::{all_fit, same_bytes, views};
use crate::schema::{
    first_repeat, first_reserved, has_repeat, has_reserved, lemma_validated_unique, repeats,
    refusal, validate, validated, DefinitionError, ServiceSpec,
};

verus! {

/// The result of convert_case's `to_case(Case::UpperCamel)` on a string: the
/// string cut into words at `_`, `-`, spaces and changes of letter case or
/// between letters and digits, each word capitalised, and the words joined.
pub uninterp spec fn upper_camel_case(ident: Seq<char>) -> Seq<char>;

/// Calls convert_case's `Casing::to_case` with `Case::UpperCamel`. Trusted:
/// the result is that of the conversion, which depends on the text alone.
#[verifier::external_body]
fn snake_to_camel_case(ident: &str) -> (r: String)
    ensures
        r@ == upper_camel_case(ident@),
{
    ident.to_string().to_case(Case::UpperCamel)
}

/// The wire tag of a method: its name in upper camel case, as UTF-8.
pub open spec fn tag_of(name: Seq<char>) -> Seq<u8> {
    encode_utf8(upper_camel_case(name))
}

/// The wire tags of a list of method names, one for one.
pub open spec fn tags_of(names: Seq<Seq<char>>) -> Seq<Seq<u8>> {
    Seq::new(names.len(), |i: int| tag_of(names[i]))
}

/// What building a service answers, given the method names and the tags
/// derived from them: what the validator says of the names comes first, then
/// the first two methods that share a tag.
pub open spec fn checked(
    names: Seq<Seq<char>>,
    tags: Seq<Seq<u8>>,
    refusal: Option<DefinitionError>,
) -> bool {
    match refusal {
        None => validated(names, None) && !has_repeat(tags),
        Some(DefinitionError::TagCollision { first, second }) => validated(names, None)
            && first_repeat(tags, first as int, second as int),
        Some(e) => validated(names, Some(e)),
    }
}

/// What building a service answers depends on the names and tags alone.
pub proof fn lemma_checked_unique(
    names: Seq<Seq<char>>,
    tags: Seq<Seq<u8>>,
    a: Option<DefinitionError>,
    b: Option<DefinitionError>,
)
    requires
        checked(names, tags, a),
        checked(names, tags, b),
    ensures
        a == b,
{
    let of_names = |refusal: Option<DefinitionError>|
        match refusal {
            Some(DefinitionError::TagCollision { .. }) => None,
            other => other,
        };
    lemma_validated_unique(names, of_names(a), of_names(b));
    if let Some(DefinitionError::TagCollision { first, second }) = a {
        assert(repeats(tags, first as int, second as int));
    }
    if let Some(DefinitionError::TagCollision { first, second }) = b {
        assert(repeats(tags, first as int, second as int));
    }
}

/// Reserved-name rejection: no service is built from a declaration with a
/// method of the reserved name. The answer is that name's first occurrence.
pub proof fn lemma_reserved_name_never_built(
    names: Seq<Seq<char>>,
    tags: Seq<Seq<u8>>,
    refusal: Option<DefinitionError>,
)
    requires
        checked(names, tags, refusal),
        has_reserved(names),
    ensures
        refusal matches Some(DefinitionError::ReservedName { index }) && first_reserved(
            names,
            index as int,
        ),
{
}

/// Derives the wire tag of a method from its name.
pub fn derive_tag(name: &str) -> (tag: Vec<u8>)
    ensures
        tag@ == tag_of(name@),
{
    let camel = snake_to_camel_case(name);
    camel.as_str().as_bytes_vec()
}

/// Looks for two methods with the same tag: the first such pair in reading
/// order, or `None` where every tag is used once.
pub fn find_tag_collision(tags: &Vec<Vec<u8>>) -> (r: Option<(usize, usize)>)
    ensures
        match r {
            None => !has_repeat(views(tags@)),
            Some((first, second)) => first_repeat(views(tags@), first as int, second as int),
        },
{
    let n = tags.len();
    let mut j: usize = 0;
    while j < n
        invariant
            n == tags@.len(),
            j <= n,
            forall|a: int, b: int| #[trigger] repeats(views(tags@), a, b) ==> j <= b,
        decreases n - j,
    {
        let mut i: usize = 0;
        while i < j
            invariant
                n == tags@.len(),
                i <= j < n,
                forall|a: int, b: int| #[trigger] repeats(views(tags@), a, b) ==> j <= b,
                forall|a: int| 0 <= a < i ==> views(tags@)[a] != views(tags@)[j as int],
            decreases j - i,
        {
            if same_bytes(tags[i].as_slice(), tags[j].as_slice()) {
                assert(repeats(views(tags@), i as int, j as int));
                return Some((i, j));
            }
            i += 1;
        }
        j += 1;
    }
    None
}

/// A service that passed every check, with the wire tag of each method.
#[derive(Debug)]
pub struct Service {
    spec: ServiceSpec,
    tags: Vec<Vec<u8>>,
    server_ident: String,
    methods_enum_ident: String,
    client_ident: String,
}

impl Service {
    /// The service as it was declared.
    pub closed spec fn decl(&self) -> ServiceSpec {
        self.spec
    }

    /// The wire tag of each method, in declaration order.
    pub closed spec fn tags(&self) -> Seq<Seq<u8>> {
        views(self.tags@)
    }

    /// The name of the type that binds a handler to the service.
    pub closed spec fn server_name(&self) -> Seq<char> {
        self.server_ident@
    }

    /// The name of the tagged union of the service's calls.
    pub closed spec fn methods_enum_name(&self) -> Seq<char> {
        self.methods_enum_ident@
    }

    /// The name of the client proxy of the service.
    pub closed spec fn client_name(&self) -> Seq<char> {
        self.client_ident@
    }

    /// The method names, in declaration order.
    pub open spec fn names(&self) -> Seq<Seq<char>> {
        self.decl().names()
    }

    /// The number of methods.
    pub open spec fn count(&self) -> nat {
        self.decl().methods@.len()
    }

    /// The number of parameters of method `i`.
    pub open spec fn arity(&self, i: int) -> nat {
        self.decl().methods@[i].params@.len()
    }

    /// What holds of every built service: every method has the tag that is
    /// derived from its name, no name is reserved or repeated, no tag is used
    /// twice, and no tag is too long to be written.
    #[verifier::type_invariant]
    pub open spec fn wf(&self) -> bool {
        &&& self.tags() == tags_of(self.names())
        &&& self.tags().len() == self.count()
        &&& self.decl().valid()
        &&& !has_repeat(self.tags())
        &&& all_fit(self.tags())
    }

    /// The service as it was declared.
    pub fn declaration(&self) -> (r: &ServiceSpec)
        ensures
            *r == self.decl(),
            self.wf(),
    {
        proof {
            use_type_invariant(self);
        }
        &self.spec
    }

    /// The number of methods.
    pub fn len(&self) -> (n: usize)
        ensures
            n == self.count(),
            self.wf(),
    {
        proof {
            use_type_invariant(self);
        }
        self.spec.methods.len()
    }

    /// The wire tag of method `i`, if there is such a method.
    pub fn tag(&self, i: usize) -> (r: Option<&Vec<u8>>)
        ensures
            self.wf(),
            r is Some <==> i < self.count(),
            r matches Some(tag) ==> tag@ == self.tags()[i as int],
    {
        if i < self.len() {
            Some(self.tag_at(i))
        } else {
            None
        }
    }

    /// The number of parameters of method `i`, if there is such a method.
    pub fn params_len(&self, i: usize) -> (r: Option<usize>)
        ensures
            self.wf(),
            r is Some <==> i < self.count(),
            r matches Some(n) ==> n == self.arity(i as int),
    {
        if i < self.len() {
            Some(self.arity_at(i))
        } else {
            None
        }
    }

    pub(crate) fn tag_at(&self, i: usize) -> (r: &Vec<u8>)
        requires
            i < self.count(),
        ensures
            r@ == self.tags()[i as int],
    {
        proof {
            use_type_invariant(self);
        }
        &self.tags[i]
    }

    pub(crate) fn arity_at(&self, i: usize) -> (n: usize)
        requires
            i < self.count(),
        ensures
            n == self.arity(i as int),
    {
        self.spec.methods[i].params.len()
    }

    /// The method that has the wire tag `tag`, if any.
    pub fn find_tag(&self, tag: &[u8]) -> (r: Option<usize>)
        ensures
            self.wf(),
            match r {
                Some(i) => i < self.count() && self.tags()[i as int] == tag@,
                None => forall|k: int| 0 <= k < self.count() ==> self.tags()[k] != tag@,
            },
    {
        proof {
            use_type_invariant(self);
        }
        let n = self.tags.len();
        let mut i: usize = 0;
        while i < n
            invariant
                n == self.tags@.len(),
                i <= n,
                self.wf(),
                forall|k: int| 0 <= k < i ==> self.tags()[k] != tag@,
            decreases n - i,
        {
            if same_bytes(self.tags[i].as_slice(), tag) {
                return Some(i);
            }
            i += 1;
        }
        None
    }

    /// The method that is named `name`, if any.
    pub fn method_index(&self, name: &str) -> (r: Option<usize>)
        ensures
            self.wf(),
            match r {
                Some(i) => i < self.count() && self.names()[i as int] == name@,
                None => forall|k: int| 0 <= k < self.count() ==> self.names()[k] != name@,
            },
    {
        proof {
            use_type_invariant(self);
        }
        let wanted = String::from_str(name);
        let n = self.spec.methods.len();
        let mut i: usize = 0;
        while i < n
            invariant
                n == self.spec.methods@.len(),
                i <= n,
                self.wf(),
                wanted@ == name@,
                forall|k: int| 0 <= k < i ==> self.names()[k] != name@,
            decreases n - i,
        {
            if self.spec.methods[i].name == wanted {
                return Some(i);
            }
            i += 1;
        }
        None
    }

    /// The name of the type that binds a handler to the service.
    pub fn server_ident(&self) -> (r: &String)
        ensures
            r@ == self.server_name(),
    {
        &self.server_ident
    }

    /// The name of the tagged union of the service's calls.
    pub fn methods_enum_ident(&self) -> (r: &String)
        ensures
            r@ == self.methods_enum_name(),
    {
        &self.methods_enum_ident
    }

    /// The name of the client proxy of the service.
    pub fn client_ident(&self) -> (r: &String)
        ensures
            r@ == self.client_name(),
    {
        &self.client_ident
    }
}

/// Builds a service from its declaration. The declaration is validated, each
/// method gets the wire tag derived from its name, and two methods whose
/// names differ and whose tags are the same are refused.
pub fn service(spec: ServiceSpec) -> (r: Result<Service, DefinitionError>)
    ensures
        r is Ok <==> spec.valid() && !has_repeat(tags_of(spec.names())),
        checked(spec.names(), tags_of(spec.names()), refusal(r)),
        r matches Ok(svc) ==> {
            &&& svc.wf()
            &&& svc.decl() == spec
            &&& svc.tags() == tags_of(spec.names())
            &&& svc.server_name() == spec.name@ + "Server"@
            &&& svc.methods_enum_name() == spec.name@ + "Methods"@
            &&& svc.client_name() == spec.name@ + "Client"@
        },
{
    match validate(&spec) {
        Err(e) => {
            return Err(e);
        },
        Ok(()) => {},
    }
    let n = spec.methods.len();
    let mut tags: Vec<Vec<u8>> = Vec::new();
    let mut i: usize = 0;
    while i < n
        invariant
            n == spec.methods@.len(),
            i <= n,
            tags@.len() == i,
            forall|k: int| 0 <= k < i ==> (#[trigger] tags@[k])@ == tag_of(spec.names()[k]),
        decreases n - i,
    {
        tags.push(derive_tag(spec.methods[i].name.as_str()));
        i += 1;
    }
    assert(views(tags@) =~= tags_of(spec.names()));
    assert(all_fit(views(tags@))) by {
        assert forall|k: int| 0 <= k < views(tags@).len() implies (#[trigger] views(
            tags@,
        )[k]).len() <= crate::wire::max_len() by {
            assert(tags@[k]@.len() == tags@[k].len());
        }
    }
    match find_tag_collision(&tags) {
        Some((first, second)) => Err(DefinitionError::TagCollision { first, second }),
        None => {
            let server_ident = spec.name.clone().concat("Server");
            let methods_enum_ident = spec.name.clone().concat("Methods");
            let client_ident = spec.name.clone().concat("Client");
            Ok(Service { spec, tags, server_ident, methods_enum_ident, client_ident })
        },
    }
}

} // verus!
