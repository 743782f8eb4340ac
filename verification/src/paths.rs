//! Filesystem paths as the platform reads them: absoluteness, components and joining,
//! and the comparisons that follow from components.
use vstd::prelude::*;

verus! {

/// Whether the platform reads `path` as absolute (`Path::is_absolute`).
pub uninterp spec fn absolute_path(path: Seq<char>) -> bool;

/// The components of `path` (`Path::components`), each as its kind (prefix 0, root 1,
/// `.` 2, `..` 3, name 4, the order in which `Component` compares) and its text.
pub uninterp spec fn components_of(path: Seq<char>) -> Seq<(u8, Seq<char>)>;

/// `Path::join` of `base` and `path`, as text.
pub uninterp spec fn joined_path(base: Seq<char>, path: Seq<char>) -> Seq<char>;

/// A list of components as plain values.
pub open spec fn components_view(k: Seq<(u8, String)>) -> Seq<(u8, Seq<char>)> {
    k.map_values(|c: (u8, String)| (c.0, c.1@))
}

/// `Path::is_absolute`: the result is named by `absolute_path`.
#[verifier::external_body]
pub(crate) fn is_absolute_path(path: &str) -> (r: bool)
    ensures
        r == absolute_path(path@),
{
    std::path::Path::new(path).is_absolute()
}

/// `Path::components`, each component converted to its kind and text; the result is
/// named by `components_of`.
#[verifier::external_body]
pub(crate) fn path_components(path: &str) -> (r: Vec<(u8, String)>)
    ensures
        components_view(r@) == components_of(path@),
{
    std::path::Path::new(path).components().map(|c| match c {
        std::path::Component::Prefix(p) => (0u8, p.as_os_str().to_string_lossy().into_owned()),
        std::path::Component::RootDir => (1u8, String::new()),
        std::path::Component::CurDir => (2u8, String::new()),
        std::path::Component::ParentDir => (3u8, String::new()),
        std::path::Component::Normal(s) => (4u8, s.to_string_lossy().into_owned()),
    }).collect()
}

/// `Path::join`, converted to text; the result is named by `joined_path`.
#[verifier::external_body]
pub(crate) fn join_path(base: &str, path: &str) -> (r: String)
    ensures
        r@ == joined_path(base@, path@),
{
    std::path::Path::new(base).join(path).to_string_lossy().into_owned()
}

/// Whether the first `n` components of `a` are those of `b`.
pub(crate) fn same_components(a: &Vec<(u8, String)>, b: &Vec<(u8, String)>, n: usize) -> (r: bool)
    requires
        n <= a@.len(),
    ensures
        r == (components_view(a@).take(n as int) == components_view(b@)),
{
    if n != b.len() {
        assert(components_view(a@).take(n as int).len() != components_view(b@).len());
        return false;
    }
    let mut i: usize = 0;
    while i < n
        invariant
            i <= n <= a@.len(),
            n == b@.len(),
            forall|m: int| 0 <= m < i ==> components_view(a@)[m] == components_view(b@)[m],
        decreases n - i,
    {
        if !(a[i].0 == b[i].0 && a[i].1 == b[i].1) {
            assert(components_view(a@).take(n as int)[i as int] != components_view(b@)[i as int]);
            return false;
        }
        i = i + 1;
    }
    assert(components_view(a@).take(n as int) =~= components_view(b@));
    true
}

/// `Path` equality: the same components.
pub fn same_path(a: &str, b: &str) -> (r: bool)
    ensures
        r == (components_of(a@) == components_of(b@)),
{
    let ca = path_components(a);
    let cb = path_components(b);
    assert(components_view(ca@).take(ca@.len() as int) =~= components_view(ca@));
    same_components(&ca, &cb, ca.len())
}

/// `Path::starts_with`: the components of `base` begin those of `path`.
pub fn path_within(path: &str, base: &str) -> (r: bool)
    ensures
        r == components_of(base@).is_prefix_of(components_of(path@)),
{
    let cp = path_components(path);
    let cb = path_components(base);
    if cb.len() > cp.len() {
        return false;
    }
    let r = same_components(&cp, &cb, cb.len());
    proof {
        let pv = components_view(cp@);
        let bv = components_view(cb@);
        if bv.is_prefix_of(pv) {
            assert(pv.take(bv.len() as int) =~= bv);
        }
    }
    r
}

} // verus!
