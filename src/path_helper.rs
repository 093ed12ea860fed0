//! Paths as the standard library splits them into components, and the two
//! operations on them that file names in messages need.
use vstd::prelude::*;
use vstd::string::*;

use std::path::{Component, Path, PathBuf, Prefix};

verus! {

/// The kind of a path component.
#[derive(Clone, Copy, Debug, PartialEq, Eq, Structural)]
pub enum ComponentKind {
    /// A Windows prefix of the form `\\?\C:`.
    VerbatimDiskPrefix,
    /// Any other Windows prefix.
    OtherPrefix,
    RootDir,
    CurDir,
    ParentDir,
    Normal,
}

/// A path component: its kind and its text.
#[derive(Clone, Debug, PartialEq, Eq)]
pub struct PathComponent {
    pub kind: ComponentKind,
    pub text: String,
}

/// Code of a component kind, in the order of the variants.
pub open spec fn kind_code(k: ComponentKind) -> int {
    match k {
        ComponentKind::VerbatimDiskPrefix => 0,
        ComponentKind::OtherPrefix => 1,
        ComponentKind::RootDir => 2,
        ComponentKind::CurDir => 3,
        ComponentKind::ParentDir => 4,
        ComponentKind::Normal => 5,
    }
}

pub open spec fn component_view(c: PathComponent) -> (int, Seq<char>) {
    (kind_code(c.kind), c.text@)
}

pub open spec fn components_view(v: Seq<PathComponent>) -> Seq<(int, Seq<char>)> {
    v.map_values(|c: PathComponent| component_view(c))
}

/// The components, as codes and texts, that the standard library finds in
/// a path.
pub uninterp spec fn components_of(path: Seq<char>) -> Seq<(int, Seq<char>)>;

/// Whether the standard library takes a path for absolute.
pub uninterp spec fn is_absolute_path(path: Seq<char>) -> bool;

/// The path that the standard library builds from components.
pub uninterp spec fn joined_path(comps: Seq<(int, Seq<char>)>) -> Seq<char>;

/// Relies on `std::path::Path::components`: the components of a path,
/// with their text and the kind of each.
#[verifier::external_body]
fn path_components(path: &str) -> (r: Vec<PathComponent>)
    ensures
        components_view(r@) == components_of(path@),
{
    let mut out = Vec::new();
    for c in Path::new(path).components() {
        let kind = match c {
            Component::Prefix(p) => match p.kind() {
                Prefix::VerbatimDisk(_) => ComponentKind::VerbatimDiskPrefix,
                _ => ComponentKind::OtherPrefix,
            },
            Component::RootDir => ComponentKind::RootDir,
            Component::CurDir => ComponentKind::CurDir,
            Component::ParentDir => ComponentKind::ParentDir,
            Component::Normal(_) => ComponentKind::Normal,
        };
        out.push(PathComponent { kind, text: c.as_os_str().to_string_lossy().into_owned() });
    }
    out
}

/// Relies on `std::path::Path::is_absolute`.
#[verifier::external_body]
fn path_is_absolute(path: &str) -> (r: bool)
    ensures
        r == is_absolute_path(path@),
{
    Path::new(path).is_absolute()
}

/// Relies on collecting components into a `std::path::PathBuf`, which joins
/// them with separators.
#[verifier::external_body]
fn join_components(comps: &Vec<PathComponent>) -> (r: String)
    ensures
        r@ == joined_path(components_view(comps@)),
{
    comps.iter().map(|c| c.text.as_str()).collect::<PathBuf>().to_string_lossy().into_owned()
}

pub open spec fn parent_view() -> (int, Seq<char>) {
    (4, ".."@)
}

pub open spec fn repeat_parent(n: nat) -> Seq<(int, Seq<char>)>
    decreases n,
{
    if n == 0 {
        seq![]
    } else {
        repeat_parent((n - 1) as nat).push(parent_view())
    }
}

/// The components that lead from the components `b` of a base to the
/// components `a` of a path, walking both from `i` and `j` with `comps`
/// gathered so far; `None` where the base climbs out of a directory that
/// the path does not share.
pub open spec fn diff_from(
    a: Seq<(int, Seq<char>)>,
    b: Seq<(int, Seq<char>)>,
    i: int,
    j: int,
    comps: Seq<(int, Seq<char>)>,
) -> Option<Seq<(int, Seq<char>)>>
    decreases a.len() - i + b.len() - j,
{
    if i < 0 || j < 0 || i > a.len() || j > b.len() {
        None
    } else if i == a.len() && j == b.len() {
        Some(comps)
    } else if j == b.len() {
        Some(comps + a.subrange(i, a.len() as int))
    } else if i == a.len() {
        diff_from(a, b, i, j + 1, comps.push(parent_view()))
    } else if comps.len() == 0 && a[i] == b[j] {
        diff_from(a, b, i + 1, j + 1, comps)
    } else if b[j].0 == 3 {
        diff_from(a, b, i + 1, j + 1, comps.push(a[i]))
    } else if b[j].0 == 4 {
        None
    } else {
        Some(
            comps.push(parent_view()) + repeat_parent((b.len() - j - 1) as nat) + seq![a[i]]
                + a.subrange(i + 1, a.len() as int),
        )
    }
}

/// The path from `base` to `path`, as `diff_paths` finds it.
pub open spec fn spec_diff_paths(path: Seq<char>, base: Seq<char>) -> Option<Seq<char>> {
    if is_absolute_path(path) != is_absolute_path(base) {
        if is_absolute_path(path) {
            Some(path)
        } else {
            None
        }
    } else {
        match diff_from(components_of(path), components_of(base), 0, 0, seq![]) {
            Some(c) => Some(joined_path(c)),
            None => None,
        }
    }
}

fn parent_component() -> (r: PathComponent)
    ensures
        component_view(r) == parent_view(),
{
    PathComponent { kind: ComponentKind::ParentDir, text: String::from_str("..") }
}

fn copy_component(c: &PathComponent) -> (r: PathComponent)
    ensures
        component_view(r) == component_view(*c),
{
    PathComponent { kind: c.kind, text: c.text.clone() }
}

fn same_component(x: &PathComponent, y: &PathComponent) -> (r: bool)
    ensures
        r == (component_view(*x) == component_view(*y)),
{
    let same_kind = match (x.kind, y.kind) {
        (ComponentKind::VerbatimDiskPrefix, ComponentKind::VerbatimDiskPrefix) => true,
        (ComponentKind::OtherPrefix, ComponentKind::OtherPrefix) => true,
        (ComponentKind::RootDir, ComponentKind::RootDir) => true,
        (ComponentKind::CurDir, ComponentKind::CurDir) => true,
        (ComponentKind::ParentDir, ComponentKind::ParentDir) => true,
        (ComponentKind::Normal, ComponentKind::Normal) => true,
        _ => false,
    };
    same_kind && x.text.eq(&y.text)
}

/// Appends the components of `a` from `i` on.
fn push_rest(comps: &mut Vec<PathComponent>, a: &Vec<PathComponent>, i: usize)
    requires
        i <= a@.len(),
    ensures
        components_view(final(comps)@) == components_view(old(comps)@) + components_view(
            a@,
        ).subrange(i as int, a@.len() as int),
{
    let ghost start = components_view(comps@);
    let mut k = i;
    while k < a.len()
        invariant
            i <= k <= a@.len(),
            components_view(comps@) == start + components_view(a@).subrange(i as int, k as int),
        decreases a@.len() - k,
    {
        let ghost before = components_view(comps@);
        comps.push(copy_component(&a[k]));
        assert(components_view(comps@) =~= before.push(component_view(a@[k as int])));
        assert(components_view(a@).subrange(i as int, k + 1) =~= components_view(a@).subrange(
            i as int,
            k as int,
        ).push(component_view(a@[k as int])));
        k = k + 1;
    }
}

/// Walks the components of a path and of a base together and gathers the
/// components that lead from the base to the path.
pub fn diff_components(a: &Vec<PathComponent>, b: &Vec<PathComponent>) -> (r: Option<
    Vec<PathComponent>,
>)
    ensures
        match r {
            Some(c) => diff_from(components_view(a@), components_view(b@), 0, 0, seq![]) == Some(
                components_view(c@),
            ),
            None => diff_from(components_view(a@), components_view(b@), 0, 0, seq![]) is None,
        },
{
    let ghost av = components_view(a@);
    let ghost bv = components_view(b@);
    let mut comps: Vec<PathComponent> = Vec::new();
    let mut i: usize = 0;
    let mut j: usize = 0;
    assert(components_view(comps@) =~= seq![]);
    loop
        invariant
            av == components_view(a@),
            bv == components_view(b@),
            0 <= i <= a@.len(),
            0 <= j <= b@.len(),
            diff_from(av, bv, i as int, j as int, components_view(comps@)) == diff_from(
                av,
                bv,
                0,
                0,
                seq![],
            ),
        decreases a@.len() - i + b@.len() - j,
    {
        let ghost cv = components_view(comps@);
        if i >= a.len() && j >= b.len() {
            return Some(comps);
        } else if j >= b.len() {
            push_rest(&mut comps, a, i);
            return Some(comps);
        } else if i >= a.len() {
            comps.push(parent_component());
            assert(components_view(comps@) =~= cv.push(parent_view()));
            j = j + 1;
        } else if comps.len() == 0 && same_component(&a[i], &b[j]) {
            i = i + 1;
            j = j + 1;
        } else if b[j].kind == ComponentKind::CurDir {
            comps.push(copy_component(&a[i]));
            assert(components_view(comps@) =~= cv.push(av[i as int]));
            i = i + 1;
            j = j + 1;
        } else if b[j].kind == ComponentKind::ParentDir {
            return None;
        } else {
            comps.push(parent_component());
            let ghost j0 = j;
            let ghost with_parent = components_view(comps@);
            assert(with_parent =~= cv.push(parent_view()));
            j = j + 1;
            assert(with_parent + repeat_parent(0) =~= with_parent);
            while j < b.len()
                invariant
                    j0 + 1 <= j <= b@.len(),
                    components_view(comps@) == with_parent + repeat_parent(
                        (j - j0 - 1) as nat,
                    ),
                decreases b@.len() - j,
            {
                let ghost before = components_view(comps@);
                comps.push(parent_component());
                assert(components_view(comps@) =~= before.push(parent_view()));
                assert(repeat_parent((j + 1 - j0 - 1) as nat) == repeat_parent(
                    (j - j0 - 1) as nat,
                ).push(parent_view()));
                assert(with_parent + repeat_parent((j + 1 - j0 - 1) as nat) =~= (with_parent
                    + repeat_parent((j - j0 - 1) as nat)).push(parent_view()));
                j = j + 1;
            }
            let ghost before = components_view(comps@);
            comps.push(copy_component(&a[i]));
            assert(components_view(comps@) =~= before + seq![av[i as int]]);
            push_rest(&mut comps, a, i + 1);
            return Some(comps);
        }
    }
}

/// Finds the relative path from `base` to `path`. Where only `path` is
/// absolute, it is the answer; where only `base` is, there is none.
pub fn diff_paths(path: &str, base: &str) -> (r: Option<String>)
    ensures
        match r {
            Some(p) => spec_diff_paths(path@, base@) == Some(p@),
            None => spec_diff_paths(path@, base@) is None,
        },
{
    let path_absolute = path_is_absolute(path);
    if path_absolute != path_is_absolute(base) {
        if path_absolute {
            Some(path.to_owned())
        } else {
            None
        }
    } else {
        let a = path_components(path);
        let b = path_components(base);
        match diff_components(&a, &b) {
            Some(comps) => Some(join_components(&comps)),
            None => None,
        }
    }
}

/// The path with the Windows verbatim marker `\\?\` taken off, where the
/// path begins with a verbatim disk prefix and that marker.
pub open spec fn spec_clear_unc_prefix(path: Seq<char>) -> Seq<char> {
    if components_of(path).len() > 0 && components_of(path)[0].0 == 0 && path.len() >= 4
        && path.subrange(0, 4) == seq!['\\', '\\', '?', '\\'] {
        path.subrange(4, path.len() as int)
    } else {
        path
    }
}

/// Takes the Windows verbatim marker off a path whose first component is a
/// verbatim disk prefix (`\\?\C:\example.txt` becomes `C:\example.txt`), a
/// form that few programs accept. Other paths come back unchanged.
pub fn clear_unc_prefix(path: &str) -> (r: String)
    ensures
        r@ == spec_clear_unc_prefix(path@),
{
    let comps = path_components(path);
    if comps.len() > 0 {
        assert(component_view(comps@[0]) == components_of(path@)[0]);
    }
    if comps.len() > 0 && comps[0].kind == ComponentKind::VerbatimDiskPrefix {
        let n = path.unicode_len();
        if n >= 4 && path.get_char(0) == '\\' && path.get_char(1) == '\\' && path.get_char(2)
            == '?' && path.get_char(3) == '\\' {
            assert(path@.subrange(0, 4) =~= seq!['\\', '\\', '?', '\\']);
            return path.substring_char(4, n).to_owned();
        }
        proof {
            if n >= 4 && path@.subrange(0, 4) == seq!['\\', '\\', '?', '\\'] {
                assert(path@[0] == path@.subrange(0, 4)[0]);
                assert(path@[1] == path@.subrange(0, 4)[1]);
                assert(path@[2] == path@.subrange(0, 4)[2]);
                assert(path@[3] == path@.subrange(0, 4)[3]);
            }
        }
    }
    path.to_owned()
}

} // verus!
