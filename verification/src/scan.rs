//! What a scan comes to: a rename job for each entry that it looks at, in the scanned folder and in
//! the directories below it that it enters.
use crate::engine;
use crate::folder::Folder;
use crate::folder;
use crate::normalizer;
use crate::rename;
use vstd::prelude::*;

verus! {

/// An entry that a scan looks at: which of the directories it is in, and its name.
pub struct Visit {
    pub dir: int,
    pub name: Seq<char>,
}

/// A scan leaves a file of this name alone.
pub open spec fn is_settled(name: Seq<char>) -> bool {
    normalizer::skipped(name) || normalizer::nfc_of(name) == name
}

/// The job for one entry comes to this directory, without an error, and renames the file or not. It
/// is a valid job, as all are that are started for a name whose composed form was computed.
pub open spec fn visits_to<E>(
    f: Folder,
    name: Seq<char>,
    process_id: u32,
    g: Folder,
    renames: bool,
) -> bool {
    let start = rename::started::<E>(Some(name), normalizer::nfc_of(name), true, process_id);
    &&& rename::step_valid(start)
    &&& exists|pair: Option<(Seq<char>, Seq<char>)>| #[trigger]
        folder::comes_to::<E>(f, name, 0, start, g, Ok(pair)) && renames == (pair is Some)
}

/// The jobs for the entries, one after another and none with an error, come to these directories
/// and count this many renames. A job changes nothing but the directory that its entry is in: what
/// a directory holds is visited before the directory itself gets another name.
pub open spec fn scans_to<E>(
    dirs: Seq<Folder>,
    visits: Seq<Visit>,
    process_id: u32,
    after: Seq<Folder>,
    count: nat,
) -> bool
    decreases visits.len(),
{
    if visits.len() == 0 {
        after == dirs && count == 0
    } else {
        let v = visits.last();
        exists|before: Seq<Folder>, renames: bool|
            #![trigger visits_to::<E>(before[v.dir], v.name, process_id, after[v.dir], renames)]
            {
                &&& count >= (if renames { 1nat } else { 0nat })
                &&& scans_to::<E>(
                    dirs,
                    visits.drop_last(),
                    process_id,
                    before,
                    (count - (if renames { 1int } else { 0int })) as nat,
                )
                &&& 0 <= v.dir < before.len()
                &&& visits_to::<E>(before[v.dir], v.name, process_id, after[v.dir], renames)
                &&& after == before.update(v.dir, after[v.dir])
            }
    }
}

/// What the laws on scans suppose of a directory: no rename is refused, names are stored as they
/// are given and lead to one file each, and no two of them are links to one file.
pub open spec fn is_ready(f: Folder) -> bool {
    &&& f.wf()
    &&& f.keeps_names()
    &&& f.refuses_nothing()
}

pub open spec fn are_ready(dirs: Seq<Folder>) -> bool {
    forall|d: int| 0 <= d < dirs.len() ==> is_ready(#[trigger] dirs[d])
}

/// The file can be in the way of a rename in two steps: the temporary name leads to it.
pub open spec fn is_in_the_way(f: Folder, i: int, process_id: u32) -> bool {
    f.folds && f.finds(rename::temp_name(process_id), i)
}

/// What can be in the way of a rename is not itself to be renamed.
pub open spec fn nothing_to_rename_is_in_the_way(dirs: Seq<Folder>, process_id: u32) -> bool {
    forall|d: int, i: int|
        0 <= d < dirs.len() && #[trigger] is_in_the_way(dirs[d], i, process_id) ==> is_settled(
            dirs[d].entries[i].name,
        )
}

/// The file of the `i`-th entry is still in the directory that came of it.
pub open spec fn is_kept(f: Folder, i: int, g: Folder) -> bool {
    exists|k: int| 0 <= k < g.entries.len() && (#[trigger] g.entries[k]).id == f.entries[i].id
}

/// The entry is in one of the directories.
pub open spec fn is_entry(dirs: Seq<Folder>, v: Visit) -> bool {
    &&& 0 <= v.dir < dirs.len()
    &&& exists|i: int|
        0 <= i < dirs[v.dir].entries.len() && (#[trigger] dirs[v.dir].entries[i]).name == v.name
}

/// The visits are to entries of the directories, to none twice.
pub open spec fn are_entries(dirs: Seq<Folder>, visits: Seq<Visit>) -> bool {
    &&& visits.no_duplicates()
    &&& forall|k: int| 0 <= k < visits.len() ==> is_entry(dirs, #[trigger] visits[k])
}

/// The visit to the `i`-th entry of the `d`-th directory.
pub open spec fn visit_of(dirs: Seq<Folder>, d: int, i: int) -> Visit {
    Visit { dir: d, name: dirs[d].entries[i].name }
}

/// Every entry that a scan looks at is visited.
pub open spec fn visits_all(dirs: Seq<Folder>, visits: Seq<Visit>) -> bool {
    forall|d: int, i: int|
        #![trigger dirs[d].entries[i]]
        0 <= d < dirs.len() && 0 <= i < dirs[d].entries.len() && engine::is_visible(
            Some(dirs[d].entries[i].name),
        ) ==> visits.contains(visit_of(dirs, d, i))
}

/// Nothing is left to rename.
pub open spec fn all_settled(dirs: Seq<Folder>) -> bool {
    forall|d: int, i: int|
        #![trigger dirs[d].entries[i]]
        0 <= d < dirs.len() && 0 <= i < dirs[d].entries.len() ==> is_settled(
            dirs[d].entries[i].name,
        )
}

/// How many of the visited entries are to be renamed.
pub open spec fn unsettled(visits: Seq<Visit>) -> nat
    decreases visits.len(),
{
    if visits.len() == 0 {
        0
    } else {
        unsettled(visits.drop_last()) + (if is_settled(visits.last().name) {
            0nat
        } else {
            1nat
        })
    }
}

proof fn lemma_kept(f: Folder, i: int, g: Folder, k: int)
    requires
        0 <= k < g.entries.len(),
        g.entries[k].id == f.entries[i].id,
    ensures
        is_kept(f, i, g),
{
}

/// The `k`-th entry of a directory is the `m`-th of another with its name settled, where that was
/// visited, and the same entry, where it was not.
pub open spec fn comes_from(f: Folder, m: int, visited: bool, g: Folder, k: int) -> bool {
    &&& 0 <= m < f.entries.len()
    &&& g.entries[k].id == f.entries[m].id
    &&& f.folds ==> normalizer::nfc_of(g.entries[k].name) == normalizer::nfc_of(f.entries[m].name)
    &&& if visited {
        is_settled(g.entries[k].name)
    } else {
        g.entries[k] == f.entries[m]
    }
}

/// The `k`-th entry is what the job for the `i`-th entry of a directory made of some entry of it.
pub open spec fn comes_of_job(f: Folder, i: int, g: Folder, k: int) -> bool {
    exists|m: int| #[trigger] is_source(f, m, i, g, k)
}

pub open spec fn is_source(f: Folder, m: int, i: int, g: Folder, k: int) -> bool {
    comes_from(f, m, m == i, g, k)
}

/// The `k`-th entry is what the visits so far made of some entry of the directory `d`.
pub open spec fn comes_of_visits(
    dirs: Seq<Folder>,
    visits: Seq<Visit>,
    d: int,
    g: Folder,
    k: int,
) -> bool {
    exists|m: int| #[trigger] is_origin(dirs, visits, d, m, g, k)
}

pub open spec fn is_origin(
    dirs: Seq<Folder>,
    visits: Seq<Visit>,
    d: int,
    m: int,
    g: Folder,
    k: int,
) -> bool {
    comes_from(dirs[d], m, visits.contains(visit_of(dirs, d, m)), g, k)
}

/// A directory after a job for its `i`-th entry.
pub open spec fn is_after(f: Folder, i: int, process_id: u32, g: Folder) -> bool {
    &&& is_ready(g)
    &&& g.folds == f.folds
    &&& g.entries.len() <= f.entries.len()
    &&& forall|k: int| 0 <= k < g.entries.len() ==> #[trigger] comes_of_job(f, i, g, k)
    &&& forall|m: int|
        0 <= m < f.entries.len() && (m == i || !is_in_the_way(f, m, process_id))
            ==> #[trigger] is_kept(f, m, g)
}

/// A job that comes to an end without an error settles its entry and changes no other, but for one
/// that is in the way; it renames the file if and only if its name was not settled.
proof fn lemma_visit<E>(f: Folder, i: int, process_id: u32, g: Folder, renames: bool)
    requires
        is_ready(f),
        0 <= i < f.entries.len(),
        visits_to::<E>(f, f.entries[i].name, process_id, g, renames),
    ensures
        is_after(f, i, process_id, g),
        renames == !is_settled(f.entries[i].name),
{
    let name = f.entries[i].name;
    let composed = normalizer::nfc_of(name);
    let temp = rename::temp_name(process_id);
    let step = rename::started::<E>(Some(name), composed, true, process_id);
    let pair = choose|pair: Option<(Seq<char>, Seq<char>)>| #[trigger]
        folder::comes_to::<E>(f, name, 0, step, g, Ok(pair)) && renames == (pair is Some);
    assert(f.finds(name, i));
    if is_settled(name) {
        folder::law_settled_names_are_left_alone::<E>(f, name, i, process_id);
        folder::law_one_end::<E>(f, name, 0, step, g, Ok(pair), f, Ok(None));
        assert forall|k: int| 0 <= k < g.entries.len() implies #[trigger] comes_of_job(
            f,
            i,
            g,
            k,
        ) by {
            assert(is_source(f, k, i, g, k));
        }
        assert forall|m: int| 0 <= m < f.entries.len() implies #[trigger] is_kept(f, m, g) by {
            lemma_kept(f, m, g, m);
        }
    } else if f.folds && f.finds(temp, i) {
        folder::law_bearer_of_temporary_name_is_reported::<E>(f, name, i, process_id);
        folder::law_one_end::<E>(
            f,
            name,
            0,
            step,
            g,
            Ok(pair),
            f,
            Err(rename::RenameError::NotPreserved),
        );
    } else if f.folds {
        let c = f.cleared(temp);
        let at = f.moved_up(temp, i);
        let h = c.with_name(at, composed);
        folder::law_folded_names_take_two_steps::<E>(f, name, i, process_id);
        folder::law_one_end::<E>(f, name, 0, step, g, Ok(pair), h, Ok(Some((name, composed))));
        folder::law_folded_rerun_does_nothing::<E>(f, name, name, i, process_id);
        lemma_two_steps(f, i, process_id);
    } else if exists|k: nat| folder::first_free(f, composed, k) {
        let k = choose|k: nat| folder::first_free(f, composed, k);
        let target = folder::choice(composed, k);
        folder::law_exact_names_move_to_first_free::<E>(f, name, i, k, process_id);
        let h = f.with_name(i, target);
        folder::law_one_end::<E>(f, name, 0, step, g, Ok(pair), h, Ok(Some((name, target))));
        folder::law_exact_rerun_does_nothing::<E>(f, name, i, k, process_id);
        if k > 0 {
            normalizer::law_candidates_stay_composed(composed, k);
        }
        assert forall|k: int| 0 <= k < g.entries.len() implies #[trigger] comes_of_job(
            f,
            i,
            g,
            k,
        ) by {
            assert(is_source(f, k, i, g, k));
        }
        assert forall|m: int| 0 <= m < f.entries.len() implies #[trigger] is_kept(f, m, g) by {
            lemma_kept(f, m, g, m);
        }
    } else {
        assert forall|k: nat| k <= 1000 implies f.has(#[trigger] folder::choice(composed, k)) by {
            if !f.has(folder::choice(composed, k)) {
                folder::lemma_first_free(f, composed, k);
            }
        }
        folder::law_no_free_name_is_reported::<E>(f, name, i, process_id);
        folder::law_one_end::<E>(
            f,
            name,
            0,
            step,
            g,
            Ok(pair),
            f,
            Err(rename::RenameError::NoFreeName),
        );
    }
}

/// What two steps make of a directory that folds names.
proof fn lemma_two_steps(f: Folder, i: int, process_id: u32)
    requires
        is_ready(f),
        f.folds,
        0 <= i < f.entries.len(),
        normalizer::is_composed(normalizer::nfc_of(f.entries[i].name)),
        !f.finds(rename::temp_name(process_id), i),
        ({
            let temp = rename::temp_name(process_id);
            f.cleared(temp).with_name(
                f.moved_up(temp, i),
                normalizer::nfc_of(f.entries[i].name),
            ).wf()
        }),
    ensures
        ({
            let temp = rename::temp_name(process_id);
            is_after(
                f,
                i,
                process_id,
                f.cleared(temp).with_name(
                    f.moved_up(temp, i),
                    normalizer::nfc_of(f.entries[i].name),
                ),
            )
        }),
{
    let temp = rename::temp_name(process_id);
    let at = f.moved_up(temp, i);
    let g = f.cleared(temp).with_name(at, normalizer::nfc_of(f.entries[i].name));
    folder::lemma_cleared(f, temp, i);
    let j = if f.has(temp) {
        f.slot(temp)
    } else {
        f.entries.len() as int
    };
    assert(f.has(temp) ==> f.finds(temp, j));
    assert forall|k: int| 0 <= k < g.entries.len() implies #[trigger] comes_of_job(
        f,
        i,
        g,
        k,
    ) by {
        let m = if k < j {
            k
        } else {
            k + 1
        };
        assert(is_source(f, m, i, g, k));
    }
    assert forall|m: int|
        0 <= m < f.entries.len() && (m == i || !is_in_the_way(f, m, process_id))
        implies #[trigger] is_kept(f, m, g) by {
        assert(m != j);
        let k = if m < j {
            m
        } else {
            m - 1
        };
        lemma_kept(f, m, g, k);
    }
}

/// A job for a name that leads to nothing any more changes nothing.
proof fn lemma_vanished<E>(f: Folder, name: Seq<char>, process_id: u32, g: Folder, renames: bool)
    requires
        !f.has(name),
        visits_to::<E>(f, name, process_id, g, renames),
    ensures
        g == f,
        !renames,
{
    let step = rename::started::<E>(Some(name), normalizer::nfc_of(name), true, process_id);
    let pair = choose|pair: Option<(Seq<char>, Seq<char>)>| #[trigger]
        folder::comes_to::<E>(f, name, 0, step, g, Ok(pair)) && renames == (pair is Some);
    folder::law_vanished_files_are_given_up::<E>(f, name, true, process_id);
    folder::law_one_end::<E>(f, name, 0, step, g, Ok(pair), f, Ok(None));
}

/// Where the directory `d` stands in a scan: what was visited is settled, the rest is as it was, and only
/// what is in the way can be gone.
pub open spec fn is_between(
    dirs: Seq<Folder>,
    visits: Seq<Visit>,
    process_id: u32,
    d: int,
    g: Folder,
) -> bool {
    &&& is_ready(g)
    &&& g.folds == dirs[d].folds
    &&& g.entries.len() <= dirs[d].entries.len()
    &&& forall|k: int|
        0 <= k < g.entries.len() ==> #[trigger] comes_of_visits(dirs, visits, d, g, k)
    &&& forall|m: int|
        0 <= m < dirs[d].entries.len() && !is_in_the_way(dirs[d], m, process_id)
            ==> #[trigger] is_kept(dirs[d], m, g)
}

pub open spec fn are_between(
    dirs: Seq<Folder>,
    visits: Seq<Visit>,
    process_id: u32,
    after: Seq<Folder>,
) -> bool {
    &&& after.len() == dirs.len()
    &&& forall|d: int|
        0 <= d < dirs.len() ==> is_between(dirs, visits, process_id, d, #[trigger] after[d])
}

/// An entry that is not visited yet stands where it stood, or it was in the way and its name leads
/// to nothing.
proof fn lemma_not_visited(
    dirs: Seq<Folder>,
    visits: Seq<Visit>,
    process_id: u32,
    d: int,
    at: int,
    g: Folder,
)
    requires
        0 <= d < dirs.len(),
        is_ready(dirs[d]),
        0 <= at < dirs[d].entries.len(),
        !visits.contains(visit_of(dirs, d, at)),
        is_between(dirs, visits, process_id, d, g),
    ensures
        is_kept(dirs[d], at, g) ==> exists|k: int|
            0 <= k < g.entries.len() && #[trigger] g.entries[k] == dirs[d].entries[at],
        !is_kept(dirs[d], at, g) ==> !g.has(dirs[d].entries[at].name) && is_in_the_way(
            dirs[d],
            at,
            process_id,
        ),
{
    let f = dirs[d];
    let name = f.entries[at].name;
    if is_kept(f, at, g) {
        let k = choose|k: int|
            0 <= k < g.entries.len() && (#[trigger] g.entries[k]).id == f.entries[at].id;
        assert(comes_of_visits(dirs, visits, d, g, k));
        let m = choose|m: int| #[trigger] is_origin(dirs, visits, d, m, g, k);
        assert(f.entries[m].id == f.entries[at].id);
        assert(g.entries[k] == f.entries[at]);
    } else {
        assert forall|k: int| !(#[trigger] g.finds(name, k)) by {
            if g.finds(name, k) {
                assert(comes_of_visits(dirs, visits, d, g, k));
                let m = choose|m: int| #[trigger] is_origin(dirs, visits, d, m, g, k);
                assert(g.entries[k].id == f.entries[m].id);
                assert(f.finds(name, at));
                assert(f.finds(name, m));
            }
        }
    }
}

/// One visit more, to the entry `at` of the directory `d`.
proof fn lemma_advances(
    dirs: Seq<Folder>,
    rest: Seq<Visit>,
    process_id: u32,
    d: int,
    at: int,
    b: Folder,
    i: int,
    g: Folder,
)
    requires
        0 <= d < dirs.len(),
        is_ready(dirs[d]),
        0 <= at < dirs[d].entries.len(),
        is_between(dirs, rest, process_id, d, b),
        0 <= i < b.entries.len(),
        b.entries[i] == dirs[d].entries[at],
        is_after(b, i, process_id, g),
    ensures
        is_between(dirs, rest.push(visit_of(dirs, d, at)), process_id, d, g),
{
    let f = dirs[d];
    let visits = rest.push(visit_of(dirs, d, at));
    lemma_pushed(dirs, rest, d, at);
    assert forall|k: int| 0 <= k < g.entries.len() implies #[trigger] comes_of_visits(
        dirs,
        visits,
        d,
        g,
        k,
    ) by {
        assert(comes_of_job(b, i, g, k));
        let n = choose|n: int| #[trigger] is_source(b, n, i, g, k);
        assert(b.entries[n].id == g.entries[k].id);
        assert(comes_of_visits(dirs, rest, d, b, n));
        let m = choose|m: int| #[trigger] is_origin(dirs, rest, d, m, b, n);
        if n == i {
            assert(f.entries[m].id == f.entries[at].id);
        } else if visit_of(dirs, d, m) == visit_of(dirs, d, at) {
            assert(f.finds(f.entries[m].name, m) && f.finds(f.entries[m].name, at));
            assert(b.entries[n].id == b.entries[i].id);
        }
        assert(is_origin(dirs, visits, d, m, g, k));
    }
    assert forall|m: int|
        0 <= m < f.entries.len() && !is_in_the_way(f, m, process_id) implies #[trigger] is_kept(
        f,
        m,
        g,
    ) by {
        assert(is_kept(f, m, b));
        let n = choose|n: int|
            0 <= n < b.entries.len() && (#[trigger] b.entries[n]).id == f.entries[m].id;
        assert(comes_of_visits(dirs, rest, d, b, n));
        let o = choose|o: int| #[trigger] is_origin(dirs, rest, d, o, b, n);
        assert(f.entries[o].id == f.entries[m].id);
        assert(!is_in_the_way(b, n, process_id));
        assert(is_kept(b, n, g));
        let k = choose|k: int|
            0 <= k < g.entries.len() && (#[trigger] g.entries[k]).id == b.entries[n].id;
        lemma_kept(f, m, g, k);
    }
}

/// What is among the visits after one more.
proof fn lemma_pushed(dirs: Seq<Folder>, rest: Seq<Visit>, d: int, at: int)
    ensures
        forall|w: Visit| #[trigger]
            rest.push(visit_of(dirs, d, at)).contains(w) == (rest.contains(w) || w == visit_of(
                dirs,
                d,
                at,
            )),
{
    broadcast use vstd::seq_lib::group_seq_properties;

}

/// A directory in which the visited entry is gone, or that it is not in, stands as it did.
proof fn lemma_stays(
    dirs: Seq<Folder>,
    rest: Seq<Visit>,
    process_id: u32,
    v: Visit,
    d: int,
    b: Folder,
)
    requires
        0 <= d < dirs.len(),
        is_between(dirs, rest, process_id, d, b),
        forall|m: int|
            0 <= m < dirs[d].entries.len() && #[trigger] visit_of(dirs, d, m) == v ==> !is_kept(
                dirs[d],
                m,
                b,
            ),
    ensures
        is_between(dirs, rest.push(v), process_id, d, b),
{
    let f = dirs[d];
    assert forall|k: int| 0 <= k < b.entries.len() implies #[trigger] comes_of_visits(
        dirs,
        rest.push(v),
        d,
        b,
        k,
    ) by {
        broadcast use vstd::seq_lib::group_seq_properties;

        assert(comes_of_visits(dirs, rest, d, b, k));
        let m = choose|m: int| #[trigger] is_origin(dirs, rest, d, m, b, k);
        lemma_kept(f, m, b, k);
        assert(visit_of(dirs, d, m) != v);
        assert(rest.push(v).contains(visit_of(dirs, d, m)) == rest.contains(visit_of(dirs, d, m)));
        assert(is_origin(dirs, rest.push(v), d, m, b, k));
    }
}

proof fn lemma_next_visit<E>(
    dirs: Seq<Folder>,
    visits: Seq<Visit>,
    process_id: u32,
    before: Seq<Folder>,
    after: Seq<Folder>,
    renames: bool,
)
    requires
        are_ready(dirs),
        visits.len() > 0,
        are_entries(dirs, visits),
        are_between(dirs, visits.drop_last(), process_id, before),
        ({
            let v = visits.last();
            &&& visits_to::<E>(before[v.dir], v.name, process_id, after[v.dir], renames)
            &&& after == before.update(v.dir, after[v.dir])
        }),
    ensures
        are_between(dirs, visits, process_id, after),
        renames ==> !is_settled(visits.last().name),
        nothing_to_rename_is_in_the_way(dirs, process_id) ==> renames == !is_settled(
            visits.last().name,
        ),
{
    let v = visits.last();
    let rest = visits.drop_last();
    assert(visits =~= rest.push(v));
    let at = lemma_last_entry(dirs, visits);
    let f = dirs[v.dir];
    let b = before[v.dir];
    let g = after[v.dir];
    lemma_not_visited(dirs, rest, process_id, v.dir, at, b);
    if is_kept(f, at, b) {
        let i = choose|k: int| 0 <= k < b.entries.len() && #[trigger] b.entries[k] == f.entries[at];
        lemma_visit::<E>(b, i, process_id, g, renames);
        lemma_advances(dirs, rest, process_id, v.dir, at, b, i, g);
    } else {
        lemma_vanished::<E>(b, v.name, process_id, g, renames);
        assert(is_in_the_way(dirs[v.dir], at, process_id));
        assert forall|m: int|
            0 <= m < f.entries.len() && #[trigger] visit_of(dirs, v.dir, m) == v implies !is_kept(
            f,
            m,
            b,
        ) by {
            assert(f.finds(v.name, m) && f.finds(v.name, at));
        }
        lemma_stays(dirs, rest, process_id, v, v.dir, b);
    }
    assert forall|d: int| 0 <= d < dirs.len() implies is_between(
        dirs,
        visits,
        process_id,
        d,
        #[trigger] after[d],
    ) by {
        if d != v.dir {
            assert(is_between(dirs, rest, process_id, d, before[d]));
            lemma_stays(dirs, rest, process_id, v, d, before[d]);
        }
    }
}

/// The entry that the last visit is to, which no visit before it was to.
proof fn lemma_last_entry(dirs: Seq<Folder>, visits: Seq<Visit>) -> (at: int)
    requires
        visits.len() > 0,
        are_entries(dirs, visits),
    ensures
        0 <= visits.last().dir < dirs.len(),
        0 <= at < dirs[visits.last().dir].entries.len(),
        visit_of(dirs, visits.last().dir, at) == visits.last(),
        !visits.drop_last().contains(visits.last()),
        are_entries(dirs, visits.drop_last()),
{
    let v = visits.last();
    let rest = visits.drop_last();
    assert(is_entry(dirs, visits[visits.len() - 1]));
    if rest.contains(v) {
        let k = choose|k: int| 0 <= k < rest.len() && rest[k] == v;
        assert(visits[k] == visits[visits.len() - 1]);
    }
    assert forall|k: int| 0 <= k < rest.len() implies is_entry(dirs, #[trigger] rest[k]) by {
        assert(is_entry(dirs, visits[k]));
    }
    choose|i: int|
        0 <= i < dirs[v.dir].entries.len() && (#[trigger] dirs[v.dir].entries[i]).name == v.name
}

proof fn lemma_scan<E>(
    dirs: Seq<Folder>,
    visits: Seq<Visit>,
    process_id: u32,
    after: Seq<Folder>,
    count: nat,
)
    requires
        are_ready(dirs),
        are_entries(dirs, visits),
        scans_to::<E>(dirs, visits, process_id, after, count),
    ensures
        are_between(dirs, visits, process_id, after),
        count <= unsettled(visits),
        nothing_to_rename_is_in_the_way(dirs, process_id) ==> count == unsettled(visits),
    decreases visits.len(),
{
    if visits.len() == 0 {
        assert forall|d: int| 0 <= d < dirs.len() implies is_between(
            dirs,
            visits,
            process_id,
            d,
            #[trigger] after[d],
        ) by {
            let f = dirs[d];
            assert forall|k: int| 0 <= k < f.entries.len() implies #[trigger] comes_of_visits(
                dirs,
                visits,
                d,
                f,
                k,
            ) by {
                assert(is_origin(dirs, visits, d, k, f, k));
            }
            assert forall|m: int| 0 <= m < f.entries.len() implies #[trigger] is_kept(f, m, f) by {
                lemma_kept(f, m, f, m);
            }
        }
    } else {
        let v = visits.last();
        let (before, renames) = choose|before: Seq<Folder>, renames: bool|
            #![trigger visits_to::<E>(before[v.dir], v.name, process_id, after[v.dir], renames)]
            {
                &&& count >= (if renames { 1nat } else { 0nat })
                &&& scans_to::<E>(
                    dirs,
                    visits.drop_last(),
                    process_id,
                    before,
                    (count - (if renames { 1int } else { 0int })) as nat,
                )
                &&& 0 <= v.dir < before.len()
                &&& visits_to::<E>(before[v.dir], v.name, process_id, after[v.dir], renames)
                &&& after == before.update(v.dir, after[v.dir])
            };
        let at = lemma_last_entry(dirs, visits);
        lemma_scan::<E>(
            dirs,
            visits.drop_last(),
            process_id,
            before,
            (count - (if renames { 1int } else { 0int })) as nat,
        );
        lemma_next_visit::<E>(dirs, visits, process_id, before, after, renames);
    }
}

/// After a scan without errors nothing is left to rename in any of the directories. No file is new,
/// and none is gone but one that was in the way of a rename in two steps. The count is that of the
/// names that were not settled, as far as none of them was in the way itself.
pub proof fn law_scan_leaves_nothing_to_rename<E>(
    dirs: Seq<Folder>,
    visits: Seq<Visit>,
    process_id: u32,
    after: Seq<Folder>,
    count: nat,
)
    requires
        are_ready(dirs),
        are_entries(dirs, visits),
        visits_all(dirs, visits),
        scans_to::<E>(dirs, visits, process_id, after, count),
    ensures
        all_settled(after),
        after.len() == dirs.len(),
        are_ready(after),
        forall|d: int, i: int|
            0 <= d < dirs.len() && 0 <= i < dirs[d].entries.len() && !is_in_the_way(
                dirs[d],
                i,
                process_id,
            ) ==> #[trigger] is_kept(dirs[d], i, after[d]),
        forall|d: int, k: int|
            0 <= d < after.len() && 0 <= k < after[d].entries.len() ==> #[trigger] is_kept(
                after[d],
                k,
                dirs[d],
            ),
        count <= unsettled(visits),
        nothing_to_rename_is_in_the_way(dirs, process_id) ==> count == unsettled(visits),
{
    lemma_scan::<E>(dirs, visits, process_id, after, count);
    assert forall|d: int, k: int|
        #![trigger after[d].entries[k]]
        0 <= d < after.len() && 0 <= k < after[d].entries.len() implies is_settled(
        after[d].entries[k].name,
    ) && is_kept(after[d], k, dirs[d]) by {
        assert(is_between(dirs, visits, process_id, d, after[d]));
        assert(comes_of_visits(dirs, visits, d, after[d], k));
        let m = choose|m: int| #[trigger] is_origin(dirs, visits, d, m, after[d], k);
        lemma_kept(after[d], k, dirs[d], m);
    }
    assert forall|d: int, k: int|
        0 <= d < after.len() && 0 <= k < after[d].entries.len() implies #[trigger] is_kept(
        after[d],
        k,
        dirs[d],
    ) by {
        assert(is_settled(after[d].entries[k].name));
    }
    assert forall|d: int, i: int|
        0 <= d < dirs.len() && 0 <= i < dirs[d].entries.len() && !is_in_the_way(
            dirs[d],
            i,
            process_id,
        ) implies #[trigger] is_kept(dirs[d], i, after[d]) by {
        assert(is_between(dirs, visits, process_id, d, after[d]));
    }
    assert forall|d: int| 0 <= d < after.len() implies is_ready(#[trigger] after[d]) by {
        assert(is_between(dirs, visits, process_id, d, after[d]));
    }
}

/// Where nothing is left to rename, a scan changes nothing and counts nothing.
pub proof fn law_settled_scan_counts_nothing<E>(
    dirs: Seq<Folder>,
    visits: Seq<Visit>,
    process_id: u32,
    after: Seq<Folder>,
    count: nat,
)
    requires
        forall|d: int| 0 <= d < dirs.len() ==> (#[trigger] dirs[d]).wf(),
        all_settled(dirs),
        forall|k: int| 0 <= k < visits.len() ==> is_entry(dirs, #[trigger] visits[k]),
        scans_to::<E>(dirs, visits, process_id, after, count),
    ensures
        after == dirs,
        count == 0,
    decreases visits.len(),
{
    if visits.len() > 0 {
        let v = visits.last();
        let (before, renames) = choose|before: Seq<Folder>, renames: bool|
            #![trigger visits_to::<E>(before[v.dir], v.name, process_id, after[v.dir], renames)]
            {
                &&& count >= (if renames { 1nat } else { 0nat })
                &&& scans_to::<E>(
                    dirs,
                    visits.drop_last(),
                    process_id,
                    before,
                    (count - (if renames { 1int } else { 0int })) as nat,
                )
                &&& 0 <= v.dir < before.len()
                &&& visits_to::<E>(before[v.dir], v.name, process_id, after[v.dir], renames)
                &&& after == before.update(v.dir, after[v.dir])
            };
        assert forall|k: int| 0 <= k < visits.drop_last().len() implies is_entry(
            dirs,
            #[trigger] visits.drop_last()[k],
        ) by {
            assert(is_entry(dirs, visits[k]));
        }
        law_settled_scan_counts_nothing::<E>(
            dirs,
            visits.drop_last(),
            process_id,
            before,
            (count - (if renames { 1int } else { 0int })) as nat,
        );
        assert(is_entry(dirs, visits[visits.len() - 1]));
        let f = dirs[v.dir];
        let i = choose|i: int|
            0 <= i < dirs[v.dir].entries.len() && (#[trigger] dirs[v.dir].entries[i]).name
                == v.name;
        let step = rename::started::<E>(
            Some(v.name),
            normalizer::nfc_of(v.name),
            true,
            process_id,
        );
        let pair = choose|pair: Option<(Seq<char>, Seq<char>)>| #[trigger]
            folder::comes_to::<E>(f, v.name, 0, step, after[v.dir], Ok(pair)) && renames == (
            pair is Some);
        assert(f.finds(v.name, i));
        folder::law_settled_names_are_left_alone::<E>(f, v.name, i, process_id);
        folder::law_one_end::<E>(f, v.name, 0, step, after[v.dir], Ok(pair), f, Ok(None));
        assert(after =~= dirs);
    }
}

/// A second scan right after the first counts nothing and changes nothing.
pub proof fn law_second_scan_counts_nothing<E>(
    dirs: Seq<Folder>,
    visits: Seq<Visit>,
    process_id: u32,
    after: Seq<Folder>,
    count: nat,
    again: Seq<Visit>,
    last: Seq<Folder>,
    second: nat,
)
    requires
        are_ready(dirs),
        are_entries(dirs, visits),
        visits_all(dirs, visits),
        scans_to::<E>(dirs, visits, process_id, after, count),
        are_entries(after, again),
        scans_to::<E>(after, again, process_id, last, second),
    ensures
        second == 0,
        last == after,
{
    law_scan_leaves_nothing_to_rename::<E>(dirs, visits, process_id, after, count);
    law_settled_scan_counts_nothing::<E>(after, again, process_id, last, second);
}

/// A scan of valid jobs ends without an error, where a directory that tells the forms of a name
/// apart holds at most a thousand files, and nothing to rename is in the way.
pub proof fn law_scan_ends<E>(dirs: Seq<Folder>, visits: Seq<Visit>, process_id: u32)
    requires
        are_ready(dirs),
        are_entries(dirs, visits),
        nothing_to_rename_is_in_the_way(dirs, process_id),
        forall|d: int|
            0 <= d < dirs.len() && !(#[trigger] dirs[d]).folds ==> dirs[d].entries.len() <= 1000,
        forall|k: int|
            0 <= k < visits.len() ==> rename::step_valid(
                rename::started::<E>(
                    Some((#[trigger] visits[k]).name),
                    normalizer::nfc_of(visits[k].name),
                    true,
                    process_id,
                ),
            ),
    ensures
        exists|after: Seq<Folder>, count: nat|
            scans_to::<E>(dirs, visits, process_id, after, count),
    decreases visits.len(),
{
    if visits.len() == 0 {
        assert(scans_to::<E>(dirs, visits, process_id, dirs, 0));
    } else {
        let v = visits.last();
        let rest = visits.drop_last();
        let at = lemma_last_entry(dirs, visits);
        assert forall|k: int| 0 <= k < rest.len() implies rename::step_valid(
            rename::started::<E>(
                Some((#[trigger] rest[k]).name),
                normalizer::nfc_of(rest[k].name),
                true,
                process_id,
            ),
        ) by {
            assert(rest[k] == visits[k]);
        }
        law_scan_ends::<E>(dirs, rest, process_id);
        let (before, n) = choose|after: Seq<Folder>, count: nat|
            scans_to::<E>(dirs, rest, process_id, after, count);
        lemma_scan::<E>(dirs, rest, process_id, before, n);
        let b = before[v.dir];
        lemma_not_visited(dirs, rest, process_id, v.dir, at, b);
        let start = rename::started::<E>(Some(v.name), normalizer::nfc_of(v.name), true, process_id);
        assert(v == visits[visits.len() - 1]);
        assert(rename::step_valid(start));
        if is_kept(dirs[v.dir], at, b) {
            let i = choose|k: int|
                0 <= k < b.entries.len() && #[trigger] b.entries[k] == dirs[v.dir].entries[at];
            if is_in_the_way(b, i, process_id) {
                assert(is_in_the_way(dirs[v.dir], at, process_id));
            }
            lemma_visit_ends::<E>(b, i, process_id);
        } else {
            folder::law_vanished_files_are_given_up::<E>(b, v.name, true, process_id);
            assert(visits_to::<E>(b, v.name, process_id, b, false));
        }
        let (g, renames) = choose|g: Folder, renames: bool|
            visits_to::<E>(before[v.dir], v.name, process_id, g, renames);
        let after = before.update(v.dir, g);
        let count = n + (if renames { 1nat } else { 0nat });
        assert(visits_to::<E>(before[v.dir], v.name, process_id, after[v.dir], renames));
        assert(scans_to::<E>(dirs, visits, process_id, after, count));
    }
}

proof fn lemma_visit_ends<E>(f: Folder, i: int, process_id: u32)
    requires
        is_ready(f),
        0 <= i < f.entries.len(),
        !f.folds ==> f.entries.len() <= 1000,
        is_in_the_way(f, i, process_id) ==> is_settled(f.entries[i].name),
        rename::step_valid(
            rename::started::<E>(
                Some(f.entries[i].name),
                normalizer::nfc_of(f.entries[i].name),
                true,
                process_id,
            ),
        ),
    ensures
        exists|g: Folder, renames: bool|
            visits_to::<E>(f, f.entries[i].name, process_id, g, renames),
{
    let name = f.entries[i].name;
    let composed = normalizer::nfc_of(name);
    let temp = rename::temp_name(process_id);
    assert(f.finds(name, i));
    if is_settled(name) {
        folder::law_settled_names_are_left_alone::<E>(f, name, i, process_id);
        assert(visits_to::<E>(f, name, process_id, f, false));
    } else if f.folds {
        folder::law_folded_names_take_two_steps::<E>(f, name, i, process_id);
        let g = f.cleared(temp).with_name(f.moved_up(temp, i), composed);
        assert(visits_to::<E>(f, name, process_id, g, true));
    } else {
        folder::law_small_folders_have_a_free_choice(f, composed);
        let k = choose|k: nat| folder::first_free(f, composed, k);
        folder::law_exact_names_move_to_first_free::<E>(f, name, i, k, process_id);
        let g = f.with_name(i, folder::choice(composed, k));
        assert(visits_to::<E>(f, name, process_id, g, true));
    }
}

} // verus!
