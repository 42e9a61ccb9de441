//! Named types, the namespaces that hold them, and the paths that name them.

use vstd::prelude::*;

use crate::text::{join, string_views};

verus! {

/// The path of a namespace: no namespace at all, or a list of names from the root.
#[derive(Debug)]
pub enum NSPath {
    NoNamespace,
    Path(Vec<String>),
}

/// The full name of a type: its namespace and its own name.
#[derive(Debug)]
pub struct TypePath {
    pub path: NSPath,
    pub name: String,
}

/// A type definition of kind `T` with its name and numeric id.
#[derive(Debug)]
pub struct NamedType<T> {
    pub path: TypePath,
    pub typ: T,
    pub type_id: u64,
}

/// A namespace and the named types defined in it.
#[derive(Debug)]
pub struct CompilationUnitNS<T> {
    pub path: NSPath,
    pub types: Vec<NamedType<T>>,
}

/// All namespaces of one compilation.
#[derive(Debug)]
pub struct CompilationUnit<T> {
    pub namespaces: Vec<CompilationUnitNS<T>>,
}

/// An error raised for a type of the namespace at `path`.
#[derive(Debug)]
pub struct WithinNamespace<E> {
    pub path: NSPath,
    pub error: E,
}

/// What can go wrong when namespaces and types are added or looked up.
#[derive(Debug)]
pub enum CompilationUnitError {
    /// No namespace has the namespace path of the requested type.
    NoNamespace(TypePath),
    /// The namespace holds no type with the requested path.
    TypeNotFound(TypePath),
    /// A namespace with this path is already present.
    DuplicateNamespace(NSPath),
    /// A type with this path is already present in the namespace.
    DuplicateType(TypePath),
}

impl View for NSPath {
    type V = Option<Seq<Seq<char>>>;

    open spec fn view(&self) -> Option<Seq<Seq<char>>> {
        match self {
            NSPath::NoNamespace => None,
            NSPath::Path(p) => Some(string_views(p@)),
        }
    }
}

impl View for TypePath {
    type V = (Option<Seq<Seq<char>>>, Seq<char>);

    open spec fn view(&self) -> (Option<Seq<Seq<char>>>, Seq<char>) {
        (self.path@, self.name@)
    }
}

/// The written form of a namespace path: empty, or `::a::b::`.
pub open spec fn ns_path_text(p: Option<Seq<Seq<char>>>) -> Seq<char> {
    match p {
        None => Seq::empty(),
        Some(names) => "::"@ + join(names, "::"@) + "::"@,
    }
}

/// The written form of a type path: its namespace followed by its name.
pub open spec fn type_path_text(p: (Option<Seq<Seq<char>>>, Seq<char>)) -> Seq<char> {
    ns_path_text(p.0) + p.1
}

fn strings_eq(a: &Vec<String>, b: &Vec<String>) -> (res: bool)
    ensures
        res == (string_views(a@) == string_views(b@)),
{
    if a.len() != b.len() {
        proof {
            assert(string_views(a@).len() != string_views(b@).len());
        }
        return false;
    }
    let mut i: usize = 0;
    while i < a.len()
        invariant
            a.len() == b.len(),
            i <= a.len(),
            forall|j: int| 0 <= j < i ==> a@[j]@ == b@[j]@,
        decreases a.len() - i,
    {
        if a[i] != b[i] {
            proof {
                assert(string_views(a@)[i as int] != string_views(b@)[i as int]);
            }
            return false;
        }
        i += 1;
    }
    proof {
        assert(string_views(a@) =~= string_views(b@));
    }
    true
}

fn clone_strings(v: &Vec<String>) -> (res: Vec<String>)
    ensures
        string_views(res@) == string_views(v@),
{
    let mut res: Vec<String> = Vec::new();
    let mut i: usize = 0;
    while i < v.len()
        invariant
            i <= v.len(),
            string_views(res@) == string_views(v@.take(i as int)),
        decreases v.len() - i,
    {
        res.push(v[i].clone());
        proof {
            assert(string_views(v@.take(i + 1)) =~= string_views(v@.take(i as int)).push(v@[i as int]@));
            assert(string_views(res@) =~= string_views(v@.take(i as int)).push(v@[i as int]@));
        }
        i += 1;
    }
    proof {
        assert(v@.take(v.len() as int) =~= v@);
    }
    res
}

impl NSPath {
    /// The path of no namespace.
    pub fn new() -> (res: NSPath)
        ensures
            res@ == None::<Seq<Seq<char>>>,
    {
        NSPath::NoNamespace
    }

    /// The namespace with the given names from the root.
    pub fn with_path(path: Vec<String>) -> (res: NSPath)
        ensures
            res@ == Some(string_views(path@)),
    {
        NSPath::Path(path)
    }

    /// Compares two namespace paths name by name.
    pub fn same_as(&self, other: &NSPath) -> (res: bool)
        ensures
            res == (self@ == other@),
    {
        match (self, other) {
            (NSPath::NoNamespace, NSPath::NoNamespace) => true,
            (NSPath::Path(a), NSPath::Path(b)) => strings_eq(a, b),
            _ => false,
        }
    }

    /// A copy of the path.
    pub fn duplicate(&self) -> (res: NSPath)
        ensures
            res@ == self@,
    {
        match self {
            NSPath::NoNamespace => NSPath::NoNamespace,
            NSPath::Path(p) => NSPath::Path(clone_strings(p)),
        }
    }

    /// The written form: empty for no namespace, else `::` before, between and after the names.
    pub fn display_string(&self) -> (res: String)
        ensures
            res@ == ns_path_text(self@),
    {
        match self {
            NSPath::NoNamespace => String::new(),
            NSPath::Path(p) => {
                let mut out = String::new();
                out.append("::");
                crate::text::push_joined(&mut out, p, "::");
                out.append("::");
                out
            },
        }
    }
}

impl TypePath {
    /// A type named `name` in the namespace `path`.
    pub fn with_ns(path: Vec<String>, name: String) -> (res: TypePath)
        ensures
            res@ == (Some(string_views(path@)), name@),
    {
        TypePath { path: NSPath::Path(path), name: name }
    }

    /// A type named `name` outside any namespace.
    pub fn with_no_ns(name: String) -> (res: TypePath)
        ensures
            res@ == (None::<Seq<Seq<char>>>, name@),
    {
        TypePath { path: NSPath::NoNamespace, name: name }
    }

    /// Compares namespace and name.
    pub fn same_as(&self, other: &TypePath) -> (res: bool)
        ensures
            res == (self@ == other@),
    {
        self.path.same_as(&other.path) && self.name == other.name
    }

    /// A copy of the path.
    pub fn duplicate(&self) -> (res: TypePath)
        ensures
            res@ == self@,
    {
        TypePath { path: self.path.duplicate(), name: self.name.clone() }
    }

    /// The written form: the namespace's written form followed by the name.
    pub fn display_string(&self) -> (res: String)
        ensures
            res@ == type_path_text(self@),
    {
        let mut out = self.path.display_string();
        out.append(self.name.as_str());
        out
    }
}

impl PartialEq for NSPath {
    fn eq(&self, other: &Self) -> (res: bool) {
        self.same_as(other)
    }
}

impl vstd::std_specs::cmp::PartialEqSpecImpl for NSPath {
    open spec fn obeys_eq_spec() -> bool {
        true
    }

    open spec fn eq_spec(&self, other: &Self) -> bool {
        self@ == other@
    }
}

impl Eq for NSPath {
}

impl PartialEq for TypePath {
    fn eq(&self, other: &Self) -> (res: bool) {
        self.same_as(other)
    }
}

impl vstd::std_specs::cmp::PartialEqSpecImpl for TypePath {
    open spec fn obeys_eq_spec() -> bool {
        true
    }

    open spec fn eq_spec(&self, other: &Self) -> bool {
        self@ == other@
    }
}

impl Eq for TypePath {
}

impl Clone for NSPath {
    fn clone(&self) -> (res: Self)
        ensures
            res@ == self@,
    {
        self.duplicate()
    }
}

impl Clone for TypePath {
    fn clone(&self) -> (res: Self)
        ensures
            res@ == self@,
    {
        self.duplicate()
    }
}

/// The position of the first namespace of `nss` whose path is `p`.
pub open spec fn ns_position<T>(nss: Seq<CompilationUnitNS<T>>, p: Option<Seq<Seq<char>>>) -> Option<
    int,
>
    decreases nss.len(),
{
    if nss.len() == 0 {
        None
    } else {
        match ns_position(nss.drop_last(), p) {
            Some(i) => Some(i),
            None => if nss.last().path@ == p {
                Some(nss.len() - 1)
            } else {
                None
            },
        }
    }
}

/// The position of the first type of `types` whose path is `p`.
pub open spec fn type_position<T>(
    types: Seq<NamedType<T>>,
    p: (Option<Seq<Seq<char>>>, Seq<char>),
) -> Option<int>
    decreases types.len(),
{
    if types.len() == 0 {
        None
    } else {
        match type_position(types.drop_last(), p) {
            Some(i) => Some(i),
            None => if types.last().path@ == p {
                Some(types.len() - 1)
            } else {
                None
            },
        }
    }
}

/// No two namespaces of `nss` share a path.
pub open spec fn ns_paths_distinct<T>(nss: Seq<CompilationUnitNS<T>>) -> bool {
    forall|i: int, j: int|
        0 <= i < j < nss.len() ==> #[trigger] nss[i].path@ != #[trigger] nss[j].path@
}

/// No two types of `types` share a path.
pub open spec fn type_paths_distinct<T>(types: Seq<NamedType<T>>) -> bool {
    forall|i: int, j: int|
        0 <= i < j < types.len() ==> #[trigger] types[i].path@ != #[trigger] types[j].path@
}

pub proof fn lemma_ns_position<T>(nss: Seq<CompilationUnitNS<T>>, p: Option<Seq<Seq<char>>>)
    ensures
        ns_position(nss, p) is None <==> forall|i: int| 0 <= i < nss.len() ==> #[trigger] nss[i].path@ != p,
        ns_position(nss, p) matches Some(i) ==> 0 <= i < nss.len() && nss[i].path@ == p && forall|
            j: int,
        | 0 <= j < i ==> #[trigger] nss[j].path@ != p,
    decreases nss.len(),
{
    if nss.len() > 0 {
        lemma_ns_position(nss.drop_last(), p);
        assert forall|i: int| 0 <= i < nss.len() - 1 implies nss.drop_last()[i] == nss[i] by {}
    }
}

pub proof fn lemma_type_position<T>(types: Seq<NamedType<T>>, p: (Option<Seq<Seq<char>>>, Seq<char>))
    ensures
        type_position(types, p) is None <==> forall|i: int| 0 <= i < types.len() ==> #[trigger] types[i].path@ != p,
        type_position(types, p) matches Some(i) ==> 0 <= i < types.len() && types[i].path@ == p && forall|
            j: int,
        | 0 <= j < i ==> #[trigger] types[j].path@ != p,
    decreases types.len(),
{
    if types.len() > 0 {
        lemma_type_position(types.drop_last(), p);
        assert forall|i: int| 0 <= i < types.len() - 1 implies types.drop_last()[i] == types[i] by {}
    }
}

impl<T> CompilationUnitNS<T> {
    /// An empty namespace with the given path.
    pub fn new(path: NSPath) -> (res: CompilationUnitNS<T>)
        ensures
            res.path == path,
            res.types@ == Seq::<NamedType<T>>::empty(),
    {
        CompilationUnitNS { path: path, types: Vec::new() }
    }

    /// Adds `typ` unless a type with the same path is already present.
    pub fn add_type(&mut self, typ: NamedType<T>) -> (res: Result<(), CompilationUnitError>)
        ensures
            final(self).path == old(self).path,
            type_position(old(self).types@, typ.path@) is None ==> res is Ok && final(self).types@
                == old(self).types@.push(typ),
            type_position(old(self).types@, typ.path@) is Some ==> final(self).types@ == old(
                self,
            ).types@ && (res matches Err(CompilationUnitError::DuplicateType(p)) && p@ == typ.path@),
    {
        let mut i: usize = 0;
        while i < self.types.len()
            invariant
                self.path == old(self).path,
                self.types@ == old(self).types@,
                i <= self.types@.len(),
                type_position(self.types@.take(i as int), typ.path@) is None,
            decreases self.types@.len() - i,
        {
            proof {
                assert(self.types@.take(i + 1).drop_last() =~= self.types@.take(i as int));
            }
            if self.types[i].path.same_as(&typ.path) {
                proof {
                    lemma_type_position(self.types@, typ.path@);
                    lemma_type_position(self.types@.take(i + 1), typ.path@);
                    assert(self.types@.take(i + 1)[i as int] == self.types@[i as int]);
                }
                return Err(CompilationUnitError::DuplicateType(typ.path));
            }
            i += 1;
        }
        proof {
            assert(self.types@.take(i as int) =~= self.types@);
        }
        self.types.push(typ);
        Ok(())
    }

    /// The id of the first type with path `path`.
    fn get_type_id(&self, path: &TypePath) -> (res: Result<u64, CompilationUnitError>)
        ensures
            match type_position(self.types@, path@) {
                Some(j) => res == Ok::<u64, CompilationUnitError>(self.types@[j].type_id),
                None => res matches Err(CompilationUnitError::TypeNotFound(p)) && p@ == path@,
            },
    {
        let mut i: usize = 0;
        while i < self.types.len()
            invariant
                i <= self.types@.len(),
                type_position(self.types@.take(i as int), path@) is None,
            decreases self.types@.len() - i,
        {
            proof {
                assert(self.types@.take(i + 1).drop_last() =~= self.types@.take(i as int));
            }
            if self.types[i].path.same_as(path) {
                proof {
                    lemma_type_position(self.types@, path@);
                    lemma_type_position(self.types@.take(i + 1), path@);
                    assert(self.types@.take(i + 1)[i as int] == self.types@[i as int]);
                    if type_position(self.types@, path@) != Some(i as int) {
                        let k = type_position(self.types@, path@)->0;
                        assert(self.types@.take(i as int)[k] == self.types@[k]);
                    }
                }
                return Ok(self.types[i].type_id);
            }
            i += 1;
        }
        proof {
            assert(self.types@.take(i as int) =~= self.types@);
        }
        Err(CompilationUnitError::TypeNotFound(path.duplicate()))
    }
}

impl<T> CompilationUnit<T> {
    /// A compilation unit without namespaces.
    pub fn new() -> (res: CompilationUnit<T>)
        ensures
            res.namespaces@ == Seq::<CompilationUnitNS<T>>::empty(),
    {
        CompilationUnit { namespaces: Vec::new() }
    }

    /// The id of the type at `path`: looked up in the first namespace with the
    /// type's namespace path.
    pub fn get_type_id(&self, path: &TypePath) -> (res: Result<u64, CompilationUnitError>)
        ensures
            match ns_position(self.namespaces@, path.path@) {
                None => res matches Err(CompilationUnitError::NoNamespace(p)) && p@ == path@,
                Some(i) => match type_position(self.namespaces@[i].types@, path@) {
                    Some(j) => res == Ok::<u64, CompilationUnitError>(
                        self.namespaces@[i].types@[j].type_id,
                    ),
                    None => res matches Err(CompilationUnitError::TypeNotFound(p)) && p@ == path@,
                },
            },
    {
        let mut i: usize = 0;
        while i < self.namespaces.len()
            invariant
                i <= self.namespaces@.len(),
                ns_position(self.namespaces@.take(i as int), path.path@) is None,
            decreases self.namespaces@.len() - i,
        {
            proof {
                assert(self.namespaces@.take(i + 1).drop_last() =~= self.namespaces@.take(i as int));
            }
            if self.namespaces[i].path.same_as(&path.path) {
                proof {
                    lemma_ns_position(self.namespaces@, path.path@);
                    lemma_ns_position(self.namespaces@.take(i + 1), path.path@);
                    assert(self.namespaces@.take(i + 1)[i as int] == self.namespaces@[i as int]);
                    if ns_position(self.namespaces@, path.path@) != Some(i as int) {
                        let k = ns_position(self.namespaces@, path.path@)->0;
                        assert(self.namespaces@.take(i as int)[k] == self.namespaces@[k]);
                    }
                }
                return self.namespaces[i].get_type_id(path);
            }
            i += 1;
        }
        proof {
            assert(self.namespaces@.take(i as int) =~= self.namespaces@);
        }
        Err(CompilationUnitError::NoNamespace(path.duplicate()))
    }

    /// Calls `f` on every type, namespace by namespace and in order within each,
    /// and stops at the first error, which it returns with the path of the
    /// namespace that holds the type.
    pub fn each_type<E, F>(&self, f: F) -> (res: Result<(), WithinNamespace<E>>) where
        F: Fn(&NamedType<T>) -> Result<(), E>,

        requires
            forall|i: int, j: int|
                0 <= i < self.namespaces@.len() && 0 <= j < self.namespaces@[i].types@.len()
                    ==> call_requires(f, (&#[trigger] self.namespaces@[i].types@[j],)),
        ensures
            res is Ok ==> forall|i: int, j: int|
                0 <= i < self.namespaces@.len() && 0 <= j < self.namespaces@[i].types@.len()
                    ==> call_ensures(f, (&#[trigger] self.namespaces@[i].types@[j],), Ok(())),
            res matches Err(w) ==> exists|i: int, j: int|
                #![trigger self.namespaces@[i].types@[j]]
                0 <= i < self.namespaces@.len() && 0 <= j < self.namespaces@[i].types@.len() && w.path@
                    == self.namespaces@[i].path@ && call_ensures(
                    f,
                    (&self.namespaces@[i].types@[j],),
                    Err(w.error),
                ) && (forall|k: int, l: int|
                    (0 <= k < i && 0 <= l < self.namespaces@[k].types@.len()) || (k == i && 0 <= l
                        < j) ==> call_ensures(
                        f,
                        (&#[trigger] self.namespaces@[k].types@[l],),
                        Ok(()),
                    )),
    {
        let mut i: usize = 0;
        while i < self.namespaces.len()
            invariant
                i <= self.namespaces@.len(),
                forall|a: int, b: int|
                    0 <= a < self.namespaces@.len() && 0 <= b < self.namespaces@[a].types@.len()
                        ==> call_requires(f, (&#[trigger] self.namespaces@[a].types@[b],)),
                forall|k: int, l: int|
                    0 <= k < i && 0 <= l < self.namespaces@[k].types@.len() ==> call_ensures(
                        f,
                        (&#[trigger] self.namespaces@[k].types@[l],),
                        Ok(()),
                    ),
            decreases self.namespaces@.len() - i,
        {
            let ns = &self.namespaces[i];
            let mut j: usize = 0;
            while j < ns.types.len()
                invariant
                    i < self.namespaces@.len(),
                    *ns == self.namespaces@[i as int],
                    j <= ns.types@.len(),
                    forall|a: int, b: int|
                        0 <= a < self.namespaces@.len() && 0 <= b < self.namespaces@[a].types@.len()
                            ==> call_requires(f, (&#[trigger] self.namespaces@[a].types@[b],)),
                    forall|k: int, l: int|
                        (0 <= k < i && 0 <= l < self.namespaces@[k].types@.len()) || (k == i && 0
                            <= l < j) ==> call_ensures(
                            f,
                            (&#[trigger] self.namespaces@[k].types@[l],),
                            Ok(()),
                        ),
                decreases ns.types@.len() - j,
            {
                let t = &ns.types[j];
                let r = f(t);
                match r {
                    Ok(u) => {
                        proof {
                            assert(self.namespaces@[i as int].types@[j as int] == *t);
                            assert(r == Ok::<(), E>(u));
                        }
                    },
                    Err(e) => {
                        let w = WithinNamespace { path: ns.path.duplicate(), error: e };
                        proof {
                            assert(self.namespaces@[i as int].types@[j as int] == ns.types@[j as int]);
                        }
                        return Err(w);
                    },
                }
                j += 1;
            }
            i += 1;
        }
        Ok(())
    }

    /// Adds `ns` unless a namespace with the same path is already present.
    pub fn add_namespace(&mut self, ns: CompilationUnitNS<T>) -> (res: Result<
        (),
        CompilationUnitError,
    >)
        ensures
            ns_position(old(self).namespaces@, ns.path@) is None ==> res is Ok
                && final(self).namespaces@ == old(self).namespaces@.push(ns),
            ns_position(old(self).namespaces@, ns.path@) is Some ==> final(self).namespaces@ == old(
                self,
            ).namespaces@ && (res matches Err(CompilationUnitError::DuplicateNamespace(p)) && p@
                == ns.path@),
    {
        let mut i: usize = 0;
        while i < self.namespaces.len()
            invariant
                self.namespaces@ == old(self).namespaces@,
                i <= self.namespaces@.len(),
                ns_position(self.namespaces@.take(i as int), ns.path@) is None,
            decreases self.namespaces@.len() - i,
        {
            proof {
                assert(self.namespaces@.take(i + 1).drop_last() =~= self.namespaces@.take(i as int));
            }
            if self.namespaces[i].path.same_as(&ns.path) {
                proof {
                    lemma_ns_position(self.namespaces@, ns.path@);
                    lemma_ns_position(self.namespaces@.take(i + 1), ns.path@);
                    assert(self.namespaces@.take(i + 1)[i as int] == self.namespaces@[i as int]);
                }
                return Err(CompilationUnitError::DuplicateNamespace(ns.path));
            }
            i += 1;
        }
        proof {
            assert(self.namespaces@.take(i as int) =~= self.namespaces@);
        }
        self.namespaces.push(ns);
        Ok(())
    }
}

/// A type added to a namespace is found by its path, at the end of the list,
/// and every other path is found where it was found before.
pub proof fn law_added_type_is_found<T>(types: Seq<NamedType<T>>, typ: NamedType<T>)
    requires
        type_position(types, typ.path@) is None,
    ensures
        type_position(types.push(typ), typ.path@) == Some(types.len() as int),
        forall|q: (Option<Seq<Seq<char>>>, Seq<char>)|
            q != typ.path@ ==> #[trigger] type_position(types.push(typ), q) == type_position(types, q),
{
    assert(types.push(typ).drop_last() =~= types);
}

/// Adding a type whose path is not yet present keeps the type paths distinct.
pub proof fn law_add_type_keeps_paths_distinct<T>(types: Seq<NamedType<T>>, typ: NamedType<T>)
    requires
        type_paths_distinct(types),
        type_position(types, typ.path@) is None,
    ensures
        type_paths_distinct(types.push(typ)),
{
    lemma_type_position(types, typ.path@);
    let t2 = types.push(typ);
    assert forall|i: int, j: int| 0 <= i < j < t2.len() implies #[trigger] t2[i].path@
        != #[trigger] t2[j].path@ by {
        if j == types.len() {
            assert(t2[i] == types[i]);
        } else {
            assert(t2[i] == types[i] && t2[j] == types[j]);
        }
    }
}

/// With distinct paths, the type at position `i` is the one found by its path.
pub proof fn law_distinct_types_are_found<T>(types: Seq<NamedType<T>>, i: int)
    requires
        type_paths_distinct(types),
        0 <= i < types.len(),
    ensures
        type_position(types, types[i].path@) == Some(i),
{
    lemma_type_position(types, types[i].path@);
    if type_position(types, types[i].path@) != Some(i) {
        let k = type_position(types, types[i].path@)->0;
        if k > i {
            assert(types[i].path@ != types[k].path@);
        }
    }
}

/// A namespace added to a compilation unit is found by its path, at the end of
/// the list, and every other path is found where it was found before.
pub proof fn law_added_namespace_is_found<T>(nss: Seq<CompilationUnitNS<T>>, ns: CompilationUnitNS<T>)
    requires
        ns_position(nss, ns.path@) is None,
    ensures
        ns_position(nss.push(ns), ns.path@) == Some(nss.len() as int),
        forall|q: Option<Seq<Seq<char>>>|
            q != ns.path@ ==> #[trigger] ns_position(nss.push(ns), q) == ns_position(nss, q),
{
    assert(nss.push(ns).drop_last() =~= nss);
}

/// Adding a namespace whose path is not yet present keeps the namespace paths distinct.
pub proof fn law_add_namespace_keeps_paths_distinct<T>(
    nss: Seq<CompilationUnitNS<T>>,
    ns: CompilationUnitNS<T>,
)
    requires
        ns_paths_distinct(nss),
        ns_position(nss, ns.path@) is None,
    ensures
        ns_paths_distinct(nss.push(ns)),
{
    lemma_ns_position(nss, ns.path@);
    let n2 = nss.push(ns);
    assert forall|i: int, j: int| 0 <= i < j < n2.len() implies #[trigger] n2[i].path@
        != #[trigger] n2[j].path@ by {
        if j == nss.len() {
            assert(n2[i] == nss[i]);
        } else {
            assert(n2[i] == nss[i] && n2[j] == nss[j]);
        }
    }
}

/// With distinct paths, the namespace at position `i` is the one found by its path.
pub proof fn law_distinct_namespaces_are_found<T>(nss: Seq<CompilationUnitNS<T>>, i: int)
    requires
        ns_paths_distinct(nss),
        0 <= i < nss.len(),
    ensures
        ns_position(nss, nss[i].path@) == Some(i),
{
    lemma_ns_position(nss, nss[i].path@);
    if ns_position(nss, nss[i].path@) != Some(i) {
        let k = ns_position(nss, nss[i].path@)->0;
        if k > i {
            assert(nss[i].path@ != nss[k].path@);
        }
    }
}

} // verus!
