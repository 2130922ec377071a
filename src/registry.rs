//! The capability registry: public types, and the implementation blocks that
//! provide the `Sink` and `Source` capabilities of the trusted namespace.
use vstd::prelude::*;
use crate::buffer::{buffer_into_vec, buffer_new, buffer_push, buffered};
use crate::model::{ItemKind, ProgramModel, Visibility};

verus! {

/// The name of the trusted namespace that declares the capabilities.
pub const STD_NAME: &'static str = "runtime";

/// The name of the consumer capability.
pub const SINK_NAME: &'static str = "Sink";

/// The name of the producer capability.
pub const SOURCE_NAME: &'static str = "Source";

/// A path as a sequence of segments.
pub open spec fn path_view(p: Seq<String>) -> Seq<Seq<char>> {
    p.map_values(|s: String| s@)
}

/// `p` names the trait `key` of the trusted namespace.
pub open spec fn names_capability(p: Seq<Seq<char>>, key: Seq<char>) -> bool {
    p.len() >= 2 && p[0] == STD_NAME@ && p.last() == key
}

/// The first trusted trait at or after `k` that is the capability `key`.
pub open spec fn find_capability_from(m: &ProgramModel, key: Seq<char>, k: int) -> Option<int>
    decreases m.trusted_traits@.len() - k,
{
    if k < 0 || k >= m.trusted_traits@.len() {
        None
    } else if names_capability(path_view(m.trusted_traits@[k]@), key) {
        Some(k)
    } else {
        find_capability_from(m, key, k + 1)
    }
}

/// The path of the capability `key`, if the trusted namespace declares it.
pub open spec fn capability_identity(m: &ProgramModel, key: Seq<char>) -> Option<Seq<Seq<char>>> {
    match find_capability_from(m, key, 0) {
        Some(i) => Some(path_view(m.trusted_traits@[i]@)),
        None => None,
    }
}

/// Item `id` is an implementation block of the trait `ident` whose self type
/// resolves to an item of the unit.
pub open spec fn implements(m: &ProgramModel, id: int, ident: Seq<Seq<char>>) -> bool {
    m.has_item(id) && match m.items@[id].kind {
        ItemKind::Impl { trait_path: Some(p), target: Some(t) } => path_view(p@) == ident && t
            < m.items@.len(),
        _ => false,
    }
}

/// The implementation blocks of `ident` among the first `k` items, in order.
pub open spec fn impls_upto(m: &ProgramModel, ident: Seq<Seq<char>>, k: int) -> Seq<usize>
    decreases k,
{
    if k <= 0 {
        seq![]
    } else if implements(m, k - 1, ident) {
        impls_upto(m, ident, k - 1).push((k - 1) as usize)
    } else {
        impls_upto(m, ident, k - 1)
    }
}

/// Item `id` is a type declaration visible outside the unit.
pub open spec fn is_public_type(m: &ProgramModel, id: int) -> bool {
    m.has_item(id) && match m.items@[id].kind {
        ItemKind::TypeDecl { visibility } => visibility == Visibility::DirectlyPublic,
        _ => false,
    }
}

/// The public type declarations among the first `k` items, in order.
pub open spec fn public_types_upto(m: &ProgramModel, k: int) -> Seq<usize>
    decreases k,
{
    if k <= 0 {
        seq![]
    } else if is_public_type(m, k - 1) {
        public_types_upto(m, k - 1).push((k - 1) as usize)
    } else {
        public_types_upto(m, k - 1)
    }
}

/// The public type declarations of the unit, in order.
pub open spec fn public_types(m: &ProgramModel) -> Seq<usize> {
    public_types_upto(m, m.items@.len() as int)
}

/// `s` without the entries that `excluded` holds, order kept.
pub open spec fn without(s: Seq<usize>, excluded: Seq<usize>) -> Seq<usize>
    decreases s.len(),
{
    if s.len() == 0 {
        seq![]
    } else if excluded.contains(s.last()) {
        without(s.drop_last(), excluded)
    } else {
        without(s.drop_last(), excluded).push(s.last())
    }
}

/// A capability that the trusted namespace does not declare.
#[derive(Clone, Copy, Debug, PartialEq, Eq, Structural)]
pub enum CapabilitySetupError {
    SinkNotFound,
    SourceNotFound,
}

/// The implementation blocks of the two capabilities.
#[derive(Clone, Debug)]
pub struct SinksAndSources {
    pub sinks: Vec<usize>,
    pub sources: Vec<usize>,
}

/// Segment-by-segment equality of two paths.
pub fn same_path(a: &Vec<String>, b: &Vec<String>) -> (r: bool)
    ensures
        r == (path_view(a@) == path_view(b@)),
{
    if a.len() != b.len() {
        proof {
            assert(path_view(a@).len() != path_view(b@).len());
        }
        return false;
    }
    let mut i: usize = 0;
    while i < a.len()
        invariant
            a@.len() == b@.len(),
            i <= a@.len(),
            forall|j: int| 0 <= j < i ==> a@[j]@ == b@[j]@,
        decreases a@.len() - i,
    {
        if a[i] != b[i] {
            proof {
                assert(path_view(a@)[i as int] != path_view(b@)[i as int]);
            }
            return false;
        }
        i += 1;
    }
    proof {
        assert(path_view(a@) =~= path_view(b@));
    }
    true
}

/// Does the path name the capability `key` of the trusted namespace?
pub fn is_capability_path(p: &Vec<String>, key: &str) -> (r: bool)
    ensures
        r == names_capability(path_view(p@), key@),
{
    let n = p.len();
    if n < 2 {
        return false;
    }
    let std_name = String::from_str(STD_NAME);
    let key_name = String::from_str(key);
    p[0] == std_name && p[n - 1] == key_name
}

/// The index of the trusted trait that is the capability `key`.
pub fn trait_def_id(m: &ProgramModel, key: &str) -> (r: Option<usize>)
    ensures
        match r {
            Some(i) => find_capability_from(m, key@, 0) == Some(i as int),
            None => find_capability_from(m, key@, 0) is None,
        },
{
    let mut k: usize = 0;
    while k < m.trusted_traits.len()
        invariant
            k <= m.trusted_traits@.len(),
            find_capability_from(m, key@, 0) == find_capability_from(m, key@, k as int),
        decreases m.trusted_traits@.len() - k,
    {
        if is_capability_path(&m.trusted_traits[k], key) {
            return Some(k);
        }
        k += 1;
    }
    None
}

/// The implementation blocks of the trait with path `ident`, in item order.
pub fn impls_of(m: &ProgramModel, ident: &Vec<String>) -> (r: Vec<usize>)
    requires
        m.items@.len() < usize::MAX / 2,
    ensures
        r@ == impls_upto(m, path_view(ident@), m.items@.len() as int),
{
    let mut out = buffer_new();
    let mut k: usize = 0;
    while k < m.items.len()
        invariant
            m.items@.len() < usize::MAX / 2,
            k <= m.items@.len(),
            buffered(out) == impls_upto(m, path_view(ident@), k as int),
        decreases m.items@.len() - k,
    {
        let found = match &m.items[k].kind {
            ItemKind::Impl { trait_path: Some(p), target: Some(t) } => *t < m.items.len()
                && same_path(p, ident),
            _ => false,
        };
        if found {
            proof {
                lemma_impls_upto_len(m, path_view(ident@), k as int);
            }
            buffer_push(&mut out, k);
        }
        k += 1;
    }
    buffer_into_vec(out)
}

/// The implementation blocks among the first `k` items, in order.
pub open spec fn impl_items_upto(m: &ProgramModel, k: int) -> Seq<usize>
    decreases k,
{
    if k <= 0 {
        seq![]
    } else if m.items@[k - 1].kind is Impl {
        impl_items_upto(m, k - 1).push((k - 1) as usize)
    } else {
        impl_items_upto(m, k - 1)
    }
}

/// Collects every implementation block of the unit, in item order.
pub fn impls(m: &ProgramModel) -> (r: Vec<usize>)
    requires
        m.items@.len() < usize::MAX / 2,
    ensures
        r@ == impl_items_upto(m, m.items@.len() as int),
{
    let mut out = buffer_new();
    let mut k: usize = 0;
    while k < m.items.len()
        invariant
            m.items@.len() < usize::MAX / 2,
            k <= m.items@.len(),
            buffered(out) == impl_items_upto(m, k as int),
            buffered(out).len() <= k,
        decreases m.items@.len() - k,
    {
        let is_impl = match &m.items[k].kind {
            ItemKind::Impl { .. } => true,
            _ => false,
        };
        if is_impl {
            buffer_push(&mut out, k);
        }
        k += 1;
    }
    buffer_into_vec(out)
}

/// Finds all public type declarations of the unit, in item order.
pub fn type_ids(m: &ProgramModel) -> (r: Vec<usize>)
    requires
        m.items@.len() < usize::MAX / 2,
    ensures
        r@ == public_types(m),
{
    let mut out = buffer_new();
    let mut k: usize = 0;
    while k < m.items.len()
        invariant
            m.items@.len() < usize::MAX / 2,
            k <= m.items@.len(),
            buffered(out) == public_types_upto(m, k as int),
        decreases m.items@.len() - k,
    {
        let public = match &m.items[k].kind {
            ItemKind::TypeDecl { visibility: Visibility::DirectlyPublic } => true,
            _ => false,
        };
        if public {
            proof {
                lemma_public_types_len(m, k as int);
            }
            buffer_push(&mut out, k);
        }
        k += 1;
    }
    buffer_into_vec(out)
}

/// Keeps the entries of `v` that `excluded` does not hold.
pub fn retain_not_in(v: &Vec<usize>, excluded: &Vec<usize>) -> (r: Vec<usize>)
    ensures
        r@ == without(v@, excluded@),
{
    let mut out: Vec<usize> = Vec::new();
    let mut k: usize = 0;
    while k < v.len()
        invariant
            k <= v@.len(),
            out@ == without(v@.take(k as int), excluded@),
        decreases v@.len() - k,
    {
        proof {
            assert(v@.take(k as int + 1).drop_last() =~= v@.take(k as int));
            assert(v@.take(k as int + 1).last() == v@[k as int]);
        }
        if !crate::callgraph::contains(excluded, v[k]) {
            out.push(v[k]);
        }
        k += 1;
    }
    proof {
        assert(v@.take(v@.len() as int) =~= v@);
    }
    out
}

/// The index of the trusted trait that is the sink capability.
fn sink_trait_def_id(m: &ProgramModel) -> (r: Option<usize>)
    ensures
        match r {
            Some(i) => find_capability_from(m, SINK_NAME@, 0) == Some(i as int),
            None => find_capability_from(m, SINK_NAME@, 0) is None,
        },
{
    trait_def_id(m, SINK_NAME)
}

/// The index of the trusted trait that is the source capability.
fn source_trait_def_id(m: &ProgramModel) -> (r: Option<usize>)
    ensures
        match r {
            Some(i) => find_capability_from(m, SOURCE_NAME@, 0) == Some(i as int),
            None => find_capability_from(m, SOURCE_NAME@, 0) is None,
        },
{
    trait_def_id(m, SOURCE_NAME)
}

impl SinksAndSources {
    /// Collects the implementation blocks of the sink and of the source
    /// capability. Fails when the trusted namespace lacks either one.
    pub fn collect_from(m: &ProgramModel) -> (r: Result<SinksAndSources, CapabilitySetupError>)
        requires
            m.items@.len() < usize::MAX / 2,
        ensures
            match r {
                Ok(s) => {
                    &&& capability_identity(m, SINK_NAME@) matches Some(sink) && s.sinks@
                        == impls_upto(m, sink, m.items@.len() as int)
                    &&& capability_identity(m, SOURCE_NAME@) matches Some(source) && s.sources@
                        == impls_upto(m, source, m.items@.len() as int)
                },
                Err(CapabilitySetupError::SinkNotFound) => capability_identity(m, SINK_NAME@) is None,
                Err(CapabilitySetupError::SourceNotFound) => {
                    &&& capability_identity(m, SINK_NAME@) is Some
                    &&& capability_identity(m, SOURCE_NAME@) is None
                },
            },
    {
        let sink = match sink_trait_def_id(m) {
            Some(i) => i,
            None => return Err(CapabilitySetupError::SinkNotFound),
        };
        let source = match source_trait_def_id(m) {
            Some(i) => i,
            None => return Err(CapabilitySetupError::SourceNotFound),
        };
        proof {
            lemma_find_in_range(m, SINK_NAME@, 0);
            lemma_find_in_range(m, SOURCE_NAME@, 0);
        }
        let sinks = impls_of(m, &m.trusted_traits[sink]);
        let sources = impls_of(m, &m.trusted_traits[source]);
        Ok(SinksAndSources { sinks, sources })
    }

    /// Removes from both lists every identifier that `slice` holds.
    pub fn filter_not_in(&mut self, slice: &Vec<usize>)
        ensures
            final(self).sinks@ == without(old(self).sinks@, slice@),
            final(self).sources@ == without(old(self).sources@, slice@),
    {
        self.sinks = retain_not_in(&self.sinks, slice);
        self.sources = retain_not_in(&self.sources, slice);
    }
}

/// The result of classification: public types, and the sink and source
/// implementation blocks that are not themselves public types.
#[derive(Clone, Debug)]
pub struct Classification {
    pub public_types: Vec<usize>,
    pub sinks: Vec<usize>,
    pub sources: Vec<usize>,
}

impl View for Classification {
    type V = (Seq<usize>, Seq<usize>, Seq<usize>);

    open spec fn view(&self) -> (Seq<usize>, Seq<usize>, Seq<usize>) {
        (self.public_types@, self.sinks@, self.sources@)
    }
}

/// What classification of the unit yields.
pub open spec fn classification_outcome(m: &ProgramModel) -> Result<
    (Seq<usize>, Seq<usize>, Seq<usize>),
    CapabilitySetupError,
> {
    match (capability_identity(m, SINK_NAME@), capability_identity(m, SOURCE_NAME@)) {
        (None, _) => Err(CapabilitySetupError::SinkNotFound),
        (Some(_), None) => Err(CapabilitySetupError::SourceNotFound),
        (Some(sink), Some(source)) => {
            let n = m.items@.len() as int;
            let pubs = public_types(m);
            Ok((pubs, without(impls_upto(m, sink, n), pubs), without(impls_upto(m, source, n), pubs)))
        },
    }
}

/// Classifies the unit: its public types, and the sink and source
/// implementation blocks that are not listed among them.
pub fn collect_capabilities(m: &ProgramModel) -> (r: Result<Classification, CapabilitySetupError>)
    requires
        m.items@.len() < usize::MAX / 2,
    ensures
        match r {
            Ok(c) => classification_outcome(m) == Ok::<_, CapabilitySetupError>(c@),
            Err(e) => classification_outcome(m) == Err::<(Seq<usize>, Seq<usize>, Seq<usize>), _>(e),
        },
{
    let public_types = type_ids(m);
    match SinksAndSources::collect_from(m) {
        Ok(found) => {
            let mut found = found;
            found.filter_not_in(&public_types);
            Ok(Classification { public_types, sinks: found.sinks, sources: found.sources })
        },
        Err(e) => Err(e),
    }
}

/// The segments of a path joined with `::`.
pub open spec fn joined(segments: Seq<Seq<char>>) -> Seq<char>
    decreases segments.len(),
{
    if segments.len() == 0 {
        seq![]
    } else if segments.len() == 1 {
        segments[0]
    } else {
        joined(segments.drop_last()) + "::"@ + segments.last()
    }
}

/// A fully qualified path, segment by segment.
#[derive(Clone, Debug)]
pub struct ItemPath {
    pub segments: Vec<String>,
}

impl ItemPath {
    /// The path written with `::` between its segments.
    pub fn to_string(&self) -> (r: String)
        ensures
            r@ == joined(path_view(self.segments@)),
    {
        let mut out = String::new();
        let mut k: usize = 0;
        let ghost segs = path_view(self.segments@);
        while k < self.segments.len()
            invariant
                segs == path_view(self.segments@),
                k <= self.segments@.len(),
                out@ == joined(segs.take(k as int)),
            decreases self.segments@.len() - k,
        {
            proof {
                reveal_strlit("::");
                assert(segs.take(k as int + 1).drop_last() =~= segs.take(k as int));
            }
            if k > 0 {
                out.append("::");
            }
            out.append(self.segments[k].as_str());
            proof {
                if k == 0 {
                    assert(out@ =~= joined(segs.take(1)));
                }
            }
            k += 1;
        }
        proof {
            assert(segs.take(self.segments@.len() as int) =~= segs);
        }
        out
    }
}

/// A copy of a path.
pub fn copy_path(p: &Vec<String>) -> (r: Vec<String>)
    ensures
        path_view(r@) == path_view(p@),
{
    let mut out: Vec<String> = Vec::new();
    let mut k: usize = 0;
    while k < p.len()
        invariant
            k <= p@.len(),
            out@.len() == k,
            forall|j: int| 0 <= j < k ==> #[trigger] out@[j]@ == p@[j]@,
        decreases p@.len() - k,
    {
        out.push(p[k].clone());
        k += 1;
    }
    proof {
        assert(path_view(out@) =~= path_view(p@));
    }
    out
}

/// The fully qualified path of item `id`.
pub fn path_of(m: &ProgramModel, id: usize) -> (r: ItemPath)
    requires
        id < m.items@.len(),
    ensures
        path_view(r.segments@) == path_view(m.items@[id as int].path@),
{
    ItemPath { segments: copy_path(&m.items[id].path) }
}

/// The fully qualified paths of the public types of the unit, in order.
pub fn types(m: &ProgramModel) -> (r: Vec<ItemPath>)
    requires
        m.items@.len() < usize::MAX / 2,
    ensures
        r@.len() == public_types(m).len(),
        forall|i: int|
            0 <= i < r@.len() ==> path_view(#[trigger] r@[i].segments@) == path_view(
                m.items@[public_types(m)[i] as int].path@,
            ),
{
    let ids = type_ids(m);
    proof {
        lemma_public_types_in_range(m, m.items@.len() as int);
    }
    let mut out: Vec<ItemPath> = Vec::new();
    let mut k: usize = 0;
    while k < ids.len()
        invariant
            ids@ == public_types(m),
            forall|j: int| 0 <= j < ids@.len() ==> #[trigger] ids@[j] < m.items@.len(),
            k <= ids@.len(),
            out@.len() == k,
            forall|i: int|
                0 <= i < k ==> path_view(#[trigger] out@[i].segments@) == path_view(
                    m.items@[ids@[i] as int].path@,
                ),
        decreases ids@.len() - k,
    {
        out.push(path_of(m, ids[k]));
        k += 1;
    }
    out
}

proof fn lemma_public_types_in_range(m: &ProgramModel, k: int)
    requires
        k <= m.items@.len(),
    ensures
        forall|j: int|
            0 <= j < public_types_upto(m, k).len() ==> #[trigger] public_types_upto(m, k)[j] < m.items@.len(),
    decreases k,
{
    if k > 0 {
        lemma_public_types_in_range(m, k - 1);
        let prev = public_types_upto(m, k - 1);
        let cur = public_types_upto(m, k);
        assert forall|j: int| 0 <= j < cur.len() implies #[trigger] cur[j] < m.items@.len() by {
            if j < prev.len() {
                assert(cur[j] == prev[j]);
            }
        }
    }
}

proof fn lemma_impls_upto_len(m: &ProgramModel, ident: Seq<Seq<char>>, k: int)
    ensures
        impls_upto(m, ident, k).len() <= if k < 0 {
            0
        } else {
            k
        },
    decreases k,
{
    if k > 0 {
        lemma_impls_upto_len(m, ident, k - 1);
    }
}

proof fn lemma_public_types_len(m: &ProgramModel, k: int)
    ensures
        public_types_upto(m, k).len() <= if k < 0 {
            0
        } else {
            k
        },
    decreases k,
{
    if k > 0 {
        lemma_public_types_len(m, k - 1);
    }
}

proof fn lemma_find_in_range(m: &ProgramModel, key: Seq<char>, k: int)
    ensures
        find_capability_from(m, key, k) matches Some(i) ==> 0 <= k <= i < m.trusted_traits@.len(),
    decreases m.trusted_traits@.len() - k,
{
    if 0 <= k < m.trusted_traits@.len() {
        lemma_find_in_range(m, key, k + 1);
    }
}

} // verus!
