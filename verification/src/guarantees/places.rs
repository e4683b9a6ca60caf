//! When paths are the same, and which folder is responsible for a path.
use crate::config::WatchedFolder;
use crate::engine::{EngineState, PathJob, ScopeRoot};
use crate::engine;
use crate::paths::{Part, PathPart, PathParts};
use crate::paths;
use vstd::prelude::*;
use vstd::string::*;
use vstd::utf8::*;

verus! {

/// The two components are of one kind, and name the same drive, share or file.
pub open spec fn same_component(a: PathPart, b: PathPart) -> bool {
    match (a, b) {
        (PathPart::Drive(x), PathPart::Drive(y)) => x == y,
        (PathPart::Prefix(x), PathPart::Prefix(y)) => x@ == y@,
        (PathPart::Root, PathPart::Root) => true,
        (PathPart::Current, PathPart::Current) => true,
        (PathPart::Parent, PathPart::Parent) => true,
        (PathPart::Normal(x), PathPart::Normal(y)) => x@ == y@,
        (_, _) => false,
    }
}

/// The first `n` components of the paths are the same.
pub open spec fn agree(a: PathParts, b: PathParts, n: int) -> bool {
    &&& n <= a.parts@.len()
    &&& n <= b.parts@.len()
    &&& forall|k: int| 0 <= k < n ==> same_component(#[trigger] a.parts@[k], b.parts@[k])
}

/// The paths have the same components.
pub open spec fn same_path(a: PathParts, b: PathParts) -> bool {
    a.parts@.len() == b.parts@.len() && agree(a, b, a.parts@.len() as int)
}

/// The path goes on from the root by one component or more.
pub open spec fn goes_on(path: PathParts, root: PathParts) -> bool {
    root.parts@.len() < path.parts@.len() && agree(path, root, root.parts@.len() as int)
}

/// The path goes on from the root by one component, which is not one that paths start from.
pub open spec fn is_child(path: PathParts, root: PathParts) -> bool {
    &&& path.parts@.len() == root.parts@.len() + 1
    &&& agree(path, root, root.parts@.len() as int)
    &&& !(path.parts@.last() is Root)
    &&& !(path.parts@.last() is Prefix)
    &&& !(path.parts@.last() is Drive)
}

proof fn lemma_agree(a: PathParts, b: PathParts, n: int)
    ensures
        0 <= n && agree(a, b, n) ==> a@.take(n) == b@.take(n),
        0 <= n <= a@.len() && n <= b@.len() && a@.take(n) == b@.take(n) ==> agree(a, b, n),
{
    if 0 <= n && agree(a, b, n) {
        assert forall|k: int| 0 <= k < n implies a@[k] == b@[k] by {
            assert(same_component(a.parts@[k], b.parts@[k]));
        }
        assert(a@.take(n) =~= b@.take(n));
    }
    if 0 <= n <= a@.len() && n <= b@.len() && a@.take(n) == b@.take(n) {
        assert forall|k: int| 0 <= k < n implies same_component(
            #[trigger] a.parts@[k],
            b.parts@[k],
        ) by {
            assert(a@.take(n)[k] == b@.take(n)[k]);
            assert(a@[k] == a.parts@[k]@ && b@[k] == b.parts@[k]@);
        }
    }
}

pub proof fn lemma_same_path(a: PathParts, b: PathParts)
    ensures
        same_path(a, b) <==> a@ == b@,
{
    lemma_agree(a, b, a@.len() as int);
    assert(a@.take(a@.len() as int) =~= a@);
    assert(b@.take(b@.len() as int) =~= b@);
}

pub proof fn lemma_goes_on(path: PathParts, root: PathParts)
    ensures
        goes_on(path, root) <==> paths::is_below(path@, root@),
        root.parts@.len() <= path.parts@.len() && agree(path, root, root.parts@.len() as int)
            <==> root@.is_prefix_of(path@),
{
    let n = root@.len() as int;
    lemma_agree(path, root, n);
    assert(root@.take(n) =~= root@);
    if root@.is_prefix_of(path@) {
        assert(path@.take(n) =~= path@.subrange(0, n));
        if path@.len() == root@.len() {
            assert(path@ =~= root@);
        }
    }
    if n <= path@.len() && path@.take(n) == root@ {
        assert(root@ =~= path@.subrange(0, n));
    }
}

pub proof fn lemma_is_child(path: PathParts, root: PathParts)
    ensures
        is_child(path, root) <==> paths::parent_of(path@) == Some(root@),
{
    let n = root@.len() as int;
    lemma_agree(path, root, n);
    assert(root@.take(n) =~= root@);
    if path@.len() > 0 {
        assert(path@.last() == path.parts@.last()@);
        assert(path@.drop_last() =~= path@.take(path@.len() - 1));
    }
}

/// Paths are the same if and only if they have the same components in the same order.
pub proof fn law_paths_are_compared_by_components(a: &PathParts, b: &PathParts, r: bool)
    requires
        call_ensures(PathParts::same, (a, b), r),
    ensures
        r <==> same_path(*a, *b),
{
    lemma_same_path(*a, *b);
}

/// A path starts with another if and only if it has all its components in front.
pub proof fn law_paths_start_by_whole_components(path: &PathParts, base: &PathParts, r: bool)
    requires
        call_ensures(PathParts::starts_with, (path, base), r),
    ensures
        r <==> agree(*path, *base, base.parts@.len() as int),
{
    lemma_goes_on(*path, *base);
}

/// A path is the parent of another if and only if that goes on from it by one component.
pub proof fn law_parents_are_one_component_shorter(path: &PathParts, root: &PathParts, r: bool)
    requires
        call_ensures(PathParts::has_parent, (path, root), r),
    ensures
        r <==> is_child(*path, *root),
{
    lemma_is_child(*path, *root);
}

/// A folder is responsible for the path: a recursive one for whatever goes on from it, another one
/// for its children.
pub open spec fn is_responsible(folder: ScopeRoot, path: PathParts) -> bool {
    if folder.recursive {
        goes_on(path, folder.root)
    } else {
        is_child(path, folder.root)
    }
}

proof fn lemma_responsible(folder: ScopeRoot, path: PathParts)
    ensures
        is_responsible(folder, path) <==> engine::covers(folder@, path@),
{
    lemma_goes_on(path, folder.root);
    lemma_is_child(path, folder.root);
}

/// A recursive folder covers every path that goes on from it, by however many components.
pub proof fn law_recursive_folders_cover_all_below(
    roots: &Vec<ScopeRoot>,
    path: &PathParts,
    i: int,
    r: bool,
)
    requires
        call_ensures(engine::is_in_scope, (roots, path), r),
        0 <= i < roots@.len(),
        roots@[i].recursive,
        goes_on(*path, roots@[i].root),
    ensures
        r,
{
    lemma_responsible(roots@[i], *path);
    assert(engine::covers(engine::root_views(roots@)[i], path@));
}

/// A folder that is not recursive covers its children.
pub proof fn law_flat_folders_cover_their_children(
    roots: &Vec<ScopeRoot>,
    path: &PathParts,
    i: int,
    r: bool,
)
    requires
        call_ensures(engine::is_in_scope, (roots, path), r),
        0 <= i < roots@.len(),
        is_child(*path, roots@[i].root),
    ensures
        r,
{
    let folder = roots@[i];
    if folder.recursive {
        law_recursive_folders_cover_all_below(roots, path, i, r);
    } else {
        lemma_responsible(folder, *path);
        assert(engine::covers(engine::root_views(roots@)[i], path@));
    }
}

/// What is covered is covered by some folder: it goes on from one that is recursive, or is a child
/// of one that is not.
pub proof fn law_nothing_else_is_covered(roots: &Vec<ScopeRoot>, path: &PathParts, r: bool)
    requires
        call_ensures(engine::is_in_scope, (roots, path), r),
        r,
    ensures
        exists|i: int| 0 <= i < roots@.len() && is_responsible(#[trigger] roots@[i], *path),
{
    let views = engine::root_views(roots@);
    let i = choose|i: int| 0 <= i < views.len() && engine::covers(#[trigger] views[i], path@);
    lemma_responsible(roots@[i], *path);
}

/// A path is in deep scope if and only if it goes on from a recursive folder.
pub proof fn law_deep_scope_is_that_of_recursive_folders(
    roots: &Vec<ScopeRoot>,
    path: &PathParts,
    r: bool,
)
    requires
        call_ensures(engine::is_in_deep_scope, (roots, path), r),
    ensures
        r <==> exists|i: int|
            0 <= i < roots@.len() && (#[trigger] roots@[i]).recursive && goes_on(
                *path,
                roots@[i].root,
            ),
{
    let views = engine::root_views(roots@);
    if r {
        let i = choose|i: int|
            0 <= i < views.len() && (#[trigger] views[i]).recursive && engine::covers(
                views[i],
                path@,
            );
        lemma_responsible(roots@[i], *path);
        assert(roots@[i].recursive && goes_on(*path, roots@[i].root));
    }
    if exists|i: int|
        0 <= i < roots@.len() && (#[trigger] roots@[i]).recursive && goes_on(
            *path,
            roots@[i].root,
        ) {
        let i = choose|i: int|
            0 <= i < roots@.len() && (#[trigger] roots@[i]).recursive && goes_on(
                *path,
                roots@[i].root,
            );
        lemma_responsible(roots@[i], *path);
        assert(views[i].recursive && engine::covers(views[i], path@));
    }
}

/// What goes on from a path in deep scope is in deep scope, and in scope, too.
pub proof fn law_deep_scope_reaches_down(
    roots: &Vec<ScopeRoot>,
    path: &PathParts,
    deeper: &PathParts,
    r: bool,
    deep: bool,
    covered: bool,
)
    requires
        call_ensures(engine::is_in_deep_scope, (roots, path), r),
        call_ensures(engine::is_in_deep_scope, (roots, deeper), deep),
        call_ensures(engine::is_in_scope, (roots, deeper), covered),
        r,
        goes_on(*deeper, *path),
    ensures
        deep,
        covered,
{
    law_deep_scope_is_that_of_recursive_folders(roots, path, r);
    law_deep_scope_is_that_of_recursive_folders(roots, deeper, deep);
    let i = choose|i: int|
        0 <= i < roots@.len() && (#[trigger] roots@[i]).recursive && goes_on(*path, roots@[i].root);
    let root = roots@[i].root;
    assert forall|k: int| 0 <= k < root.parts@.len() implies same_component(
        #[trigger] deeper.parts@[k],
        root.parts@[k],
    ) by {
        assert(same_component(path.parts@[k], root.parts@[k]));
        assert(same_component(deeper.parts@[k], path.parts@[k]));
    }
    assert(goes_on(*deeper, root));
    law_recursive_folders_cover_all_below(roots, deeper, i, covered);
}

/// The path is one of those that were given up.
pub open spec fn gave_up(e: EngineState, path: PathParts) -> bool {
    exists|k: int| 0 <= k < e.failed@.len() && same_path(#[trigger] e.failed@[k], path)
}

pub proof fn lemma_gave_up(e: EngineState, path: PathParts)
    ensures
        gave_up(e, path) <==> e@.failed.contains(path@),
{
    let views = engine::path_views(e.failed@);
    if gave_up(e, path) {
        let k = choose|k: int| 0 <= k < e.failed@.len() && same_path(#[trigger] e.failed@[k], path);
        lemma_same_path(e.failed@[k], path);
        assert(views[k] == path@);
        assert(views.contains(path@));
    }
    if views.contains(path@) {
        let k = choose|k: int| 0 <= k < views.len() && views[k] == path@;
        lemma_same_path(e.failed@[k], path);
        assert(same_path(e.failed@[k], path));
    }
}

/// A path is remembered as impossible to rename if and only if it is one of those given up.
pub proof fn law_given_up_paths_are_remembered(e: &EngineState, path: &PathParts, r: bool)
    requires
        call_ensures(EngineState::has_failed, (e, path), r),
    ensures
        r <==> gave_up(*e, *path),
{
    lemma_gave_up(*e, *path);
}

/// A path is taken up if and only if renaming is switched on, a folder is responsible for it, and
/// it was not given up. The job is for that path, has no failed attempt, and is deep if and only if
/// the path goes on from a recursive folder.
pub proof fn law_paths_are_taken_up(
    e: &EngineState,
    roots: &Vec<ScopeRoot>,
    path: PathParts,
    r: Option<PathJob>,
)
    requires
        call_ensures(EngineState::take_up_with, (e, roots, path), r),
    ensures
        r is Some <==> {
            &&& e.enabled
            &&& exists|i: int| 0 <= i < roots@.len() && is_responsible(#[trigger] roots@[i], path)
            &&& !gave_up(*e, path)
        },
        r matches Some(job) ==> {
            &&& same_path(job.path, path)
            &&& job.attempt == 0
            &&& job.deep <==> exists|i: int|
                0 <= i < roots@.len() && (#[trigger] roots@[i]).recursive && goes_on(
                    path,
                    roots@[i].root,
                )
        },
{
    let views = engine::root_views(roots@);
    lemma_gave_up(*e, path);
    assert forall|i: int| 0 <= i < roots@.len() implies is_responsible(#[trigger] roots@[i], path)
        == engine::covers(views[i], path@) by {
        lemma_responsible(roots@[i], path);
    }
    assert(engine::in_scope(views, path@) <==> exists|i: int|
        0 <= i < roots@.len() && is_responsible(#[trigger] roots@[i], path)) by {
        if engine::in_scope(views, path@) {
            let i = choose|i: int|
                0 <= i < views.len() && engine::covers(#[trigger] views[i], path@);
            assert(is_responsible(roots@[i], path));
        }
        if exists|i: int| 0 <= i < roots@.len() && is_responsible(#[trigger] roots@[i], path) {
            let i = choose|i: int|
                0 <= i < roots@.len() && is_responsible(#[trigger] roots@[i], path);
            assert(engine::covers(views[i], path@));
        }
    }
    assert(engine::in_deep_scope(views, path@) <==> exists|i: int|
        0 <= i < roots@.len() && (#[trigger] roots@[i]).recursive && goes_on(
            path,
            roots@[i].root,
        )) by {
        if engine::in_deep_scope(views, path@) {
            let i = choose|i: int|
                0 <= i < views.len() && (#[trigger] views[i]).recursive && engine::covers(
                    views[i],
                    path@,
                );
            assert(is_responsible(roots@[i], path));
            assert(roots@[i].recursive && goes_on(path, roots@[i].root));
        }
        if exists|i: int|
            0 <= i < roots@.len() && (#[trigger] roots@[i]).recursive && goes_on(
                path,
                roots@[i].root,
            ) {
            let i = choose|i: int|
                0 <= i < roots@.len() && (#[trigger] roots@[i]).recursive && goes_on(
                    path,
                    roots@[i].root,
                );
            assert(is_responsible(roots@[i], path));
            assert(views[i].recursive && engine::covers(views[i], path@));
        }
    }
    if let Some(job) = r {
        lemma_same_path(job.path, path);
    }
}

/// A text that means the same everywhere is split in one way only: at its slashes.
pub proof fn law_portable_folders_are_split_at_slashes(text: Seq<char>, root: Seq<Part>)
    requires
        paths::is_portable(text),
        paths::is_split_of(text, root),
    ensures
        root == paths::slash_parts(text),
{
    paths::law_splits_are_readings(text, root);
    paths::law_portable_texts_have_one_reading(text, root);
}

/// The paths of the folders are made of their texts, one for one, and keep whether they are
/// recursive.
pub proof fn law_roots_are_those_of_the_folders(
    folders: &Vec<WatchedFolder>,
    r: Vec<ScopeRoot>,
    i: int,
)
    requires
        call_ensures(engine::scope_roots, (folders,), r),
        0 <= i < folders@.len(),
    ensures
        r@.len() == folders@.len(),
        r@[i].recursive == folders@[i].recursive,
        paths::is_split_of(folders@[i].path@, r@[i].root@),
        paths::is_portable(folders@[i].path@) ==> r@[i].root@ == paths::slash_parts(
            folders@[i].path@,
        ),
{
    let views = engine::root_views(r@);
    assert(views[i] == r@[i]@);
    if paths::is_portable(folders@[i].path@) {
        law_portable_folders_are_split_at_slashes(folders@[i].path@, r@[i].root@);
    }
}

/// A path that goes on from a recursive folder, however the text of that is split, is taken up while
/// renaming is switched on, unless it was given up; the job is a deep one.
pub proof fn law_reports_below_recursive_folders_are_taken_up(
    e: &EngineState,
    path: PathParts,
    i: int,
    r: Option<PathJob>,
)
    requires
        call_ensures(EngineState::take_up, (e, path), r),
        e.enabled,
        !gave_up(*e, path),
        0 <= i < e.config.folders@.len(),
        e.config.folders@[i].recursive,
        forall|root: Seq<Part>| #[trigger]
            paths::is_split_of(e.config.folders@[i].path@, root) ==> root.len() < path@.len()
                && path@.take(root.len() as int) == root,
    ensures
        r matches Some(job) && same_path(job.path, path) && job.deep && job.attempt == 0,
{
    lemma_gave_up(*e, path);
    let folders = e@.config.folders;
    assert(folders[i] == e.config.folders@[i]@);
    let roots = choose|roots: Seq<engine::RootView>| #[trigger]
        engine::roots_of(folders, roots) && engine::taken_up(e@, roots, path@) == (match r {
            Some(job) => Some(job@),
            None => None,
        });
    let root = roots[i].root;
    assert(paths::is_split_of(e.config.folders@[i].path@, root));
    assert(root =~= path@.subrange(0, root.len() as int));
    assert(engine::covers(roots[i], path@));
    if let Some(job) = r {
        lemma_same_path(job.path, path);
    }
}

/// A child of a folder, however the text of that is split, is taken up while renaming is switched
/// on, unless it was given up.
pub proof fn law_reports_of_children_are_taken_up(
    e: &EngineState,
    path: PathParts,
    i: int,
    r: Option<PathJob>,
)
    requires
        call_ensures(EngineState::take_up, (e, path), r),
        e.enabled,
        !gave_up(*e, path),
        0 <= i < e.config.folders@.len(),
        path.parts@.len() > 0,
        !(path.parts@.last() is Root),
        !(path.parts@.last() is Prefix),
        !(path.parts@.last() is Drive),
        forall|root: Seq<Part>| #[trigger]
            paths::is_split_of(e.config.folders@[i].path@, root) ==> path@.drop_last() == root,
    ensures
        r matches Some(job) && same_path(job.path, path) && job.attempt == 0,
{
    lemma_gave_up(*e, path);
    let folders = e@.config.folders;
    assert(folders[i] == e.config.folders@[i]@);
    assert(path@.last() == path.parts@.last()@);
    let roots = choose|roots: Seq<engine::RootView>| #[trigger]
        engine::roots_of(folders, roots) && engine::taken_up(e@, roots, path@) == (match r {
            Some(job) => Some(job@),
            None => None,
        });
    let root = roots[i].root;
    assert(paths::is_split_of(e.config.folders@[i].path@, root));
    assert(root =~= path@.subrange(0, root.len() as int));
    assert(engine::covers(roots[i], path@));
    if let Some(job) = r {
        lemma_same_path(job.path, path);
    }
}

/// Nothing is taken up while renaming is switched off, without folders, or once it was given up.
/// What is taken up goes on from some folder.
pub proof fn law_other_reports_are_not_taken_up(
    e: &EngineState,
    path: PathParts,
    r: Option<PathJob>,
)
    requires
        call_ensures(EngineState::take_up, (e, path), r),
    ensures
        !e.enabled ==> r is None,
        e.config.folders@.len() == 0 ==> r is None,
        gave_up(*e, path) ==> r is None,
        r is Some ==> exists|i: int, root: Seq<Part>|
            #![trigger paths::is_split_of(e.config.folders@[i].path@, root)]
            {
                &&& 0 <= i < e.config.folders@.len()
                &&& paths::is_split_of(e.config.folders@[i].path@, root)
                &&& root.len() < path@.len()
                &&& path@.take(root.len() as int) == root
                &&& !e.config.folders@[i].recursive ==> path@.len() == root.len() + 1
            },
{
    lemma_gave_up(*e, path);
    let folders = e@.config.folders;
    let roots = choose|roots: Seq<engine::RootView>| #[trigger]
        engine::roots_of(folders, roots) && engine::taken_up(e@, roots, path@) == (match r {
            Some(job) => Some(job@),
            None => None,
        });
    if r is Some {
        let i = choose|i: int| 0 <= i < roots.len() && engine::covers(#[trigger] roots[i], path@);
        let root = roots[i].root;
        engine::law_scope_bounds(roots[i], path@);
        assert(folders[i] == e.config.folders@[i]@);
        assert(path@.take(root.len() as int) =~= path@.subrange(0, root.len() as int));
        assert(paths::is_split_of(e.config.folders@[i].path@, root));
    }
}

/// A text that names a file or a folder: not empty, without separators, neither one dot nor two.
pub open spec fn is_plain(name: Seq<char>) -> bool {
    &&& name.len() > 0
    &&& !name.contains('/')
    &&& name != seq!['.']
    &&& name != seq!['.', '.']
}

proof fn lemma_no_slash(s: Seq<char>)
    requires
        !s.contains('/'),
    ensures
        paths::first_separator(s, false) == s.len(),
    decreases s.len(),
{
    if s.len() > 0 {
        assert(s.contains(s[0]));
        if s.skip(1).contains('/') {
            let k = choose|k: int| 0 <= k < s.skip(1).len() && s.skip(1)[k] == '/';
            assert(s[k + 1] == '/');
        }
        lemma_no_slash(s.skip(1));
    }
}

proof fn lemma_first_separator(p: Seq<char>, name: Seq<char>)
    ensures
        paths::first_separator(p + seq!['/'] + name, false) == paths::first_separator(p, false),
        0 <= paths::first_separator(p, false) <= p.len(),
        paths::first_separator(p, false) < p.len() ==> p[paths::first_separator(p, false)] == '/',
    decreases p.len(),
{
    let all = p + seq!['/'] + name;
    if p.len() == 0 {
        assert(all[0] == '/');
    } else if p[0] != '/' {
        assert(all[0] == p[0]);
        assert(all.skip(1) =~= p.skip(1) + seq!['/'] + name);
        lemma_first_separator(p.skip(1), name);
    } else {
        assert(all[0] == p[0]);
    }
}

proof fn lemma_segments_grow(p: Seq<char>, last: Seq<char>)
    requires
        !last.contains('/'),
    ensures
        paths::segment_parts(p + seq!['/'] + last, false) == paths::segment_parts(p, false)
            + paths::segment_part(last),
    decreases p.len(),
{
    let all = p + seq!['/'] + last;
    let n = paths::first_separator(p, false);
    lemma_first_separator(p, last);
    assert(all.take(n) =~= p.take(n));
    if n < p.len() {
        assert(all.skip(n + 1) =~= p.skip(n + 1) + seq!['/'] + last);
        lemma_segments_grow(p.skip(n + 1), last);
    } else {
        assert(p.take(n) =~= p);
        assert(all.skip(n + 1) =~= last);
        lemma_no_slash(last);
        assert(paths::segment_parts(last, false) == paths::segment_part(last));
        assert(paths::segment_parts(p, false) == paths::segment_part(p));
    }
    assert(paths::segment_parts(all, false) == paths::segment_part(all.take(n))
        + paths::segment_parts(all.skip(n + 1), false));
    assert(paths::segment_parts(all, false) =~= paths::segment_parts(p, false)
        + paths::segment_part(last));
}

proof fn lemma_text_grows(base: Seq<char>, last: Seq<char>)
    requires
        base.len() > 0,
        !last.contains('/'),
    ensures
        paths::slash_parts(base + seq!['/'] + last) == paths::slash_parts(base)
            + paths::segment_part(last),
{
    let longer = base + seq!['/'] + last;
    lemma_first_separator(base, last);
    lemma_segments_grow(base, last);
    assert(longer[0] == base[0]);
    let n = paths::first_separator(base, false);
    assert(longer.take(n) =~= base.take(n));
    assert(paths::slash_parts(longer) =~= paths::slash_parts(base) + paths::segment_part(last));
}

/// One more name behind a slash is one more component.
pub proof fn law_texts_go_on_by_names(
    base: &str,
    longer: &str,
    name: Seq<char>,
    a: PathParts,
    b: PathParts,
)
    requires
        call_ensures(PathParts::from_text, (base,), a),
        call_ensures(PathParts::from_text, (longer,), b),
        base@.len() > 0,
        is_plain(name),
        longer@ == base@ + seq!['/'] + name,
        paths::is_portable(base@),
        paths::is_portable(longer@),
    ensures
        b@ == a@.push(Part::Normal(encode_utf8(name))),
{
    lemma_text_grows(base@, name);
    assert(b@ =~= a@.push(Part::Normal(encode_utf8(name))));
}

/// A slash at the end of a text, with one dot behind it or none, says nothing; two dots behind it
/// are one more component.
pub proof fn law_dots_behind_slashes(
    base: &str,
    longer: &str,
    last: Seq<char>,
    a: PathParts,
    b: PathParts,
)
    requires
        call_ensures(PathParts::from_text, (base,), a),
        call_ensures(PathParts::from_text, (longer,), b),
        base@.len() > 0,
        longer@ == base@ + seq!['/'] + last,
        paths::is_portable(base@),
        paths::is_portable(longer@),
    ensures
        last.len() == 0 ==> b@ == a@,
        last == seq!['.'] ==> b@ == a@,
        last == seq!['.', '.'] ==> b@ == a@.push(Part::Parent),
{
    if last.len() == 0 || last == seq!['.'] || last == seq!['.', '.'] {
        lemma_text_grows(base@, last);
        assert(seq!['.'] != seq!['.', '.']) by {
            assert(seq!['.'].len() != seq!['.', '.'].len());
        }
        assert(last.len() == 0 || last == seq!['.'] ==> b@ =~= a@);
        assert(last == seq!['.', '.'] ==> b@ =~= a@.push(Part::Parent));
    }
}

/// A plain name is one component; a slash in front of it is the root.
pub proof fn law_plain_texts_are_one_component(
    text: &str,
    rooted: &str,
    a: PathParts,
    b: PathParts,
)
    requires
        call_ensures(PathParts::from_text, (text,), a),
        call_ensures(PathParts::from_text, (rooted,), b),
        is_plain(text@),
        rooted@ == seq!['/'] + text@,
        paths::is_portable(text@),
        paths::is_portable(rooted@),
    ensures
        a@ == seq![Part::Normal(encode_utf8(text@))],
        b@ == seq![Part::Root, Part::Normal(encode_utf8(text@))],
{
    let name = text@;
    lemma_no_slash(name);
    assert(name.contains(name[0]));
    assert(name.take(name.len() as int) =~= name);
    assert(rooted@ =~= seq![] + seq!['/'] + name);
    lemma_segments_grow(seq![], name);
    assert(paths::segment_parts(seq![], false) =~= seq![]);
    assert(b@ =~= seq![Part::Root, Part::Normal(encode_utf8(name))]);
}

} // verus!
