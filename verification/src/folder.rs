//! What a rename job comes to in a directory: a model of the file systems that the job meets, and
//! the laws that hold of a job run against it.
use crate::normalizer;
use crate::rename::{OutcomeView, PlaceView, ReplyView, RequestView, StepView};
use crate::rename;
use vstd::prelude::*;

verus! {

/// A file of a directory: the name it is stored under, and which file it is.
pub struct Entry {
    pub name: Seq<char>,
    pub id: int,
}

/// A directory. Its file system lists it, and refuses no rename but those to certain names.
pub struct Folder {
    /// In the order of a listing.
    pub entries: Seq<Entry>,
    /// Names lead to a file whatever their normalization form.
    pub folds: bool,
    /// The form in which a name is stored.
    pub stores: spec_fn(Seq<char>) -> Seq<char>,
    /// The names to which nothing can be renamed.
    pub refuses: Set<Seq<char>>,
}

/// What the file system reports when it refuses a rename.
pub open spec fn refusal<E>() -> E {
    arbitrary()
}

impl Folder {
    /// The name that is asked for leads to the `i`-th entry.
    pub open spec fn finds(self, asked: Seq<char>, i: int) -> bool {
        &&& 0 <= i < self.entries.len()
        &&& if self.folds {
            normalizer::nfc_of(asked) == normalizer::nfc_of(self.entries[i].name)
        } else {
            asked == self.entries[i].name
        }
    }

    /// The name leads to something.
    pub open spec fn has(self, asked: Seq<char>) -> bool {
        exists|i: int| self.finds(asked, i)
    }

    pub open spec fn slot(self, asked: Seq<char>) -> int {
        choose|i: int| self.finds(asked, i)
    }

    /// No name leads to two entries, and no two entries are links to one file.
    pub open spec fn wf(self) -> bool {
        &&& forall|n: Seq<char>, i: int, j: int|
            #[trigger] self.finds(n, i) && #[trigger] self.finds(n, j) ==> i == j
        &&& forall|i: int, j: int|
            0 <= i < self.entries.len() && 0 <= j < self.entries.len() && (
            #[trigger] self.entries[i]).id == (#[trigger] self.entries[j]).id ==> i == j
    }

    /// The two names lead to one file.
    pub open spec fn same_file(self, a: Seq<char>, b: Seq<char>) -> bool {
        self.entries[self.slot(a)].id == self.entries[self.slot(b)].id
    }

    /// Names are stored as they are given.
    pub open spec fn keeps_names(self) -> bool {
        forall|n: Seq<char>| #[trigger] (self.stores)(n) == n
    }

    /// Every rename is made.
    pub open spec fn refuses_nothing(self) -> bool {
        forall|n: Seq<char>| !(#[trigger] self.refuses.contains(n))
    }

    /// The `i`-th entry under another name.
    pub open spec fn with_name(self, i: int, name: Seq<char>) -> Folder {
        Folder {
            entries: self.entries.update(i, Entry { name: (self.stores)(name), ..self.entries[i] }),
            ..self
        }
    }

    /// The directory without the file that a name leads to, where it leads to one.
    pub open spec fn cleared(self, name: Seq<char>) -> Folder {
        if self.has(name) {
            Folder { entries: self.entries.remove(self.slot(name)), ..self }
        } else {
            self
        }
    }

    /// Where the `i`-th entry stands in the directory so cleared.
    pub open spec fn moved_up(self, name: Seq<char>, i: int) -> int {
        if self.has(name) && self.slot(name) < i {
            i - 1
        } else {
            i
        }
    }

    /// What renaming the `i`-th entry does: nothing where the new name leads to that entry
    /// already; a file that the new name leads to gives way.
    pub open spec fn renamed(self, i: int, name: Seq<char>) -> Folder {
        if self.finds(name, i) {
            self
        } else {
            self.cleared(name).with_name(self.moved_up(name, i), name)
        }
    }
}

pub open spec fn place_name(given: Seq<char>, place: PlaceView) -> Seq<char> {
    match place {
        PlaceView::Given => given,
        PlaceView::Named(n) => n,
    }
}

pub open spec fn stored_reply<E>(f: Folder, given: Seq<char>, at: int) -> ReplyView<E> {
    if at < f.entries.len() {
        ReplyView::Stored(
            Some(f.entries[at].name),
            if f.has(given) {
                Some(f.entries[at].id == f.entries[f.slot(given)].id)
            } else {
                None
            },
        )
    } else {
        ReplyView::ListEnd
    }
}

pub open spec fn listed_reply<E>(f: Folder, at: int) -> ReplyView<E> {
    if at < f.entries.len() {
        ReplyView::Listed(Some(f.entries[at].name))
    } else {
        ReplyView::ListEnd
    }
}

/// How a directory answers: what it then holds, where the listing then stands, and the reply.
pub open spec fn answered<E>(f: Folder, given: Seq<char>, at: int, request: RequestView) -> (
    Folder,
    int,
    ReplyView<E>,
) {
    match request {
        RequestView::Probe => (f, at, ReplyView::Present(f.has(given))),
        RequestView::ListStored => (f, 0, stored_reply(f, given, 0)),
        RequestView::NextStored => (f, at + 1, stored_reply(f, given, at + 1)),
        RequestView::Compare(place, name) => {
            let a = place_name(given, place);
            (
                f,
                at,
                ReplyView::Same(
                    if f.has(a) && f.has(name) {
                        Some(f.same_file(a, name))
                    } else {
                        None
                    },
                ),
            )
        },
        RequestView::Exists(name) => (f, at, ReplyView::Exists(f.has(name))),
        RequestView::Rename(from, to) => if f.refuses.contains(place_name(given, to)) {
            (f, at, ReplyView::Renamed(Err(refusal())))
        } else {
            (
                f.renamed(f.slot(place_name(given, from)), place_name(given, to)),
                at,
                ReplyView::Renamed(Ok(())),
            )
        },
        RequestView::ListNames => (f, 0, listed_reply(f, 0)),
        RequestView::NextName => (f, at + 1, listed_reply(f, at + 1)),
    }
}

/// The directory and the outcome after at most `fuel` further requests.
pub open spec fn run<E>(f: Folder, given: Seq<char>, at: int, step: StepView<E>, fuel: nat) -> Option<
    (Folder, OutcomeView<E>),
>
    decreases fuel,
{
    match step {
        StepView::Finish(outcome) => Some((f, outcome)),
        StepView::Ask(job, request) => if fuel == 0 {
            None
        } else {
            let (g, next, reply) = answered::<E>(f, given, at, request);
            run(g, given, next, rename::resumed(job, reply), (fuel - 1) as nat)
        },
    }
}

/// The job ends, with this directory and this outcome.
pub open spec fn comes_to<E>(
    f: Folder,
    given: Seq<char>,
    at: int,
    step: StepView<E>,
    g: Folder,
    outcome: OutcomeView<E>,
) -> bool {
    exists|fuel: nat| #[trigger] run(f, given, at, step, fuel) == Some((g, outcome))
}

proof fn lemma_finished<E>(f: Folder, given: Seq<char>, at: int, outcome: OutcomeView<E>)
    ensures
        comes_to(f, given, at, StepView::Finish(outcome), f, outcome),
{
    assert(run(f, given, at, StepView::Finish(outcome), 0) == Some((f, outcome)));
}

/// A job comes to what it comes to after one more answer.
proof fn lemma_one_answer<E>(
    f: Folder,
    given: Seq<char>,
    at: int,
    job: rename::JobView<E>,
    request: RequestView,
    g: Folder,
    outcome: OutcomeView<E>,
)
    requires
        ({
            let (h, next, reply) = answered::<E>(f, given, at, request);
            comes_to(h, given, next, rename::resumed(job, reply), g, outcome)
        }),
    ensures
        comes_to(f, given, at, StepView::Ask(job, request), g, outcome),
{
    let (h, next, reply) = answered::<E>(f, given, at, request);
    let s = rename::resumed(job, reply);
    let fuel = choose|fuel: nat| #[trigger] run(h, given, next, s, fuel) == Some((g, outcome));
    assert(run(f, given, at, StepView::Ask(job, request), fuel + 1) == Some((g, outcome)));
}

proof fn lemma_more_fuel<E>(
    f: Folder,
    given: Seq<char>,
    at: int,
    step: StepView<E>,
    fuel: nat,
    more: nat,
)
    requires
        run(f, given, at, step, fuel) is Some,
        fuel <= more,
    ensures
        run(f, given, at, step, more) == run(f, given, at, step, fuel),
    decreases fuel,
{
    match step {
        StepView::Finish(_) => {},
        StepView::Ask(job, request) => {
            let (g, next, reply) = answered::<E>(f, given, at, request);
            lemma_more_fuel(
                g,
                given,
                next,
                rename::resumed(job, reply),
                (fuel - 1) as nat,
                (more - 1) as nat,
            );
        },
    }
}

/// A job comes to one end only.
pub proof fn law_one_end<E>(
    f: Folder,
    given: Seq<char>,
    at: int,
    step: StepView<E>,
    g: Folder,
    outcome: OutcomeView<E>,
    h: Folder,
    other: OutcomeView<E>,
)
    requires
        comes_to(f, given, at, step, g, outcome),
        comes_to(f, given, at, step, h, other),
    ensures
        g == h,
        outcome == other,
{
    let a = choose|fuel: nat| #[trigger] run(f, given, at, step, fuel) == Some((g, outcome));
    let b = choose|fuel: nat| #[trigger] run(f, given, at, step, fuel) == Some((h, other));
    if a <= b {
        lemma_more_fuel(f, given, at, step, a, b);
    } else {
        lemma_more_fuel(f, given, at, step, b, a);
    }
}

/// The listing comes to the entry of the file at hand, and the job goes on from there.
proof fn lemma_locates<E>(
    f: Folder,
    given: Seq<char>,
    at: int,
    job: rename::JobView<E>,
    i: int,
    g: Folder,
    outcome: OutcomeView<E>,
)
    requires
        f.wf(),
        f.finds(given, i),
        0 <= at <= i,
        job.stage is Locating,
        comes_to(
            f,
            given,
            i,
            rename::located(job, f.entries[i].name, normalizer::nfc_of(f.entries[i].name)),
            g,
            outcome,
        ),
    ensures
        comes_to(f, given, at, rename::resumed(job, stored_reply(f, given, at)), g, outcome),
    decreases i - at,
{
    assert(f.has(given) && f.slot(given) == i);
    if at < i {
        assert(f.entries[at].id != f.entries[i].id);
        lemma_locates(f, given, at + 1, job, i, g, outcome);
        lemma_one_answer(f, given, at, job, RequestView::NextStored, g, outcome);
    }
}

/// The listing shows the target's name from some entry on, so the job ends well.
proof fn lemma_confirms<E>(f: Folder, given: Seq<char>, at: int, job: rename::JobView<E>, i: int)
    requires
        0 <= at <= i < f.entries.len(),
        f.entries[i].name == job.target,
        job.stage is Confirming,
    ensures
        comes_to(
            f,
            given,
            at,
            rename::resumed(job, listed_reply(f, at)),
            f,
            Ok(Some((job.name, job.target))),
        ),
    decreases i - at,
{
    let outcome: OutcomeView<E> = Ok(Some((job.name, job.target)));
    if f.entries[at].name == job.target {
        lemma_finished(f, given, at, outcome);
    } else {
        lemma_confirms(f, given, at + 1, job, i);
        lemma_one_answer(f, given, at, job, RequestView::NextName, f, outcome);
    }
}

/// The listing never shows the target's name, so the job reports that.
proof fn lemma_denies<E>(f: Folder, given: Seq<char>, at: int, job: rename::JobView<E>)
    requires
        0 <= at <= f.entries.len(),
        forall|i: int| 0 <= i < f.entries.len() ==> (#[trigger] f.entries[i]).name != job.target,
        job.stage is Confirming,
    ensures
        comes_to(
            f,
            given,
            at,
            rename::resumed(job, listed_reply(f, at)),
            f,
            Err(rename::RenameError::NotPreserved),
        ),
    decreases f.entries.len() - at,
{
    let outcome: OutcomeView<E> = Err(rename::RenameError::NotPreserved);
    if at == f.entries.len() {
        lemma_finished(f, given, at, outcome);
    } else {
        assert(f.entries[at].name != job.target);
        lemma_denies(f, given, at + 1, job);
        lemma_one_answer(f, given, at, job, RequestView::NextName, f, outcome);
    }
}

/// From the last rename on: the job ends well exactly where the target's name was kept.
proof fn lemma_settles<E>(f: Folder, given: Seq<char>, at: int, job: rename::JobView<E>, i: int)
    requires
        0 <= i < f.entries.len(),
        forall|k: int|
            0 <= k < f.entries.len() && k != i ==> (#[trigger] f.entries[k]).name != job.target,
    ensures
        comes_to(
            f,
            given,
            at,
            rename::confirming(job),
            f,
            if f.entries[i].name == job.target {
                Ok(Some((job.name, job.target)))
            } else {
                Err(rename::RenameError::NotPreserved)
            },
        ),
{
    let next = rename::JobView { stage: rename::Stage::Confirming, ..job };
    let outcome: OutcomeView<E> = if f.entries[i].name == job.target {
        Ok(Some((job.name, job.target)))
    } else {
        Err(rename::RenameError::NotPreserved)
    };
    if f.entries[i].name == job.target {
        lemma_confirms(f, given, 0, next, i);
    } else {
        assert forall|k: int| 0 <= k < f.entries.len() implies (#[trigger] f.entries[k]).name
            != next.target by {
            if k != i {
            }
        }
        lemma_denies(f, given, 0, next);
    }
    lemma_one_answer(f, given, at, next, RequestView::ListNames, f, outcome);
}

/// The one rename of a job whose target is free.
proof fn lemma_moves<E>(
    f: Folder,
    given: Seq<char>,
    at: int,
    job: rename::JobView<E>,
    i: int,
    target: Seq<char>,
)
    requires
        f.wf(),
        !f.folds,
        f.finds(place_name(given, job.place), i),
        !f.has(target),
        (f.stores)(target) == target,
        !f.refuses.contains(target),
    ensures
        comes_to(
            f,
            given,
            at,
            rename::moving(job, target),
            f.with_name(i, target),
            Ok(Some((job.name, target))),
        ),
{
    let g = f.with_name(i, target);
    let next = rename::JobView { stage: rename::Stage::Moving, target, ..job };
    let outcome: OutcomeView<E> = Ok(Some((job.name, target)));
    assert(f.slot(place_name(given, job.place)) == i);
    assert(!f.finds(target, i));
    assert(f.renamed(i, target) == g);
    assert forall|k: int| 0 <= k < g.entries.len() && k != i implies (#[trigger] g.entries[k]).name
        != target by {
        assert(!f.finds(target, k));
    }
    lemma_settles(g, given, at, next, i);
    lemma_one_answer(
        f,
        given,
        at,
        next,
        RequestView::Rename(job.place, PlaceView::Named(target)),
        g,
        outcome,
    );
}

/// The `k`-th choice of a name: the composed form itself, then its candidates.
pub open spec fn choice(composed: Seq<char>, k: nat) -> Seq<char> {
    if k == 0 {
        composed
    } else {
        normalizer::candidate_name(composed, k)
    }
}

/// The `k`-th choice is free and all choices before it are taken.
pub open spec fn first_free(f: Folder, composed: Seq<char>, k: nat) -> bool {
    &&& k <= 1000
    &&& !f.has(choice(composed, k))
    &&& forall|j: nat| j < k ==> f.has(#[trigger] choice(composed, j))
}

/// The composed form and all candidates lead to something.
pub open spec fn all_taken(f: Folder, composed: Seq<char>) -> bool {
    forall|k: nat| k <= 1000 ==> f.has(#[trigger] choice(composed, k))
}

/// The candidates from the `j`-th on are tried until the first free one, and the job goes on from
/// there.
proof fn lemma_picks<E>(
    f: Folder,
    given: Seq<char>,
    at: int,
    job: rename::JobView<E>,
    j: nat,
    k: nat,
    g: Folder,
    outcome: OutcomeView<E>,
)
    requires
        1 <= j <= k,
        first_free(f, job.composed, k),
        comes_to(
            f,
            given,
            at,
            rename::moving(rename::JobView { attempt: k, ..job }, choice(job.composed, k)),
            g,
            outcome,
        ),
    ensures
        comes_to(f, given, at, rename::choosing(job, j), g, outcome),
    decreases k - j,
{
    let target = choice(job.composed, j);
    let next = rename::JobView { stage: rename::Stage::Choosing, attempt: j, target, ..job };
    if j < k {
        assert(f.has(choice(job.composed, j)));
        lemma_picks(f, given, at, next, j + 1, k, g, outcome);
    }
    lemma_one_answer(f, given, at, next, RequestView::Exists(target), g, outcome);
}

/// All candidates from the `j`-th on are taken, so the job gives up.
proof fn lemma_exhausts<E>(f: Folder, given: Seq<char>, at: int, job: rename::JobView<E>, j: nat)
    requires
        1 <= j <= 1000,
        all_taken(f, job.composed),
    ensures
        comes_to(
            f,
            given,
            at,
            rename::choosing(job, j),
            f,
            Err(rename::RenameError::NoFreeName),
        ),
    decreases 1000 - j,
{
    let target = choice(job.composed, j);
    let next = rename::JobView { stage: rename::Stage::Choosing, attempt: j, target, ..job };
    let outcome: OutcomeView<E> = Err(rename::RenameError::NoFreeName);
    assert(f.has(choice(job.composed, j)));
    if j < 1000 {
        lemma_exhausts(f, given, at, next, j + 1);
    } else {
        lemma_finished(f, given, at, outcome);
    }
    lemma_one_answer(f, given, at, next, RequestView::Exists(target), f, outcome);
}

/// A job once it has found that the target does not lead to the file at hand.
pub open spec fn checking<E>(given: Seq<char>, process_id: u32) -> rename::JobView<E> {
    rename::JobView {
        place: PlaceView::Given,
        name: given,
        composed: normalizer::nfc_of(given),
        target: normalizer::nfc_of(given),
        attempt: 0,
        temp: rename::temp_name(process_id),
        has_parent: true,
        stage: rename::Stage::CheckingTarget,
    }
}

/// Where names lead to files exactly as they are stored, a job comes to ask whether the composed
/// name is taken.
proof fn lemma_exact_start<E>(
    f: Folder,
    given: Seq<char>,
    i: int,
    process_id: u32,
    g: Folder,
    outcome: OutcomeView<E>,
)
    requires
        f.wf(),
        !f.folds,
        f.finds(given, i),
        !normalizer::skipped(given),
        normalizer::nfc_of(given) != given,
        comes_to(
            f,
            given,
            i,
            StepView::Ask(
                checking::<E>(given, process_id),
                RequestView::Exists(normalizer::nfc_of(given)),
            ),
            g,
            outcome,
        ),
    ensures
        comes_to(
            f,
            given,
            0,
            rename::started::<E>(Some(given), normalizer::nfc_of(given), true, process_id),
            g,
            outcome,
        ),
{
    let composed = normalizer::nfc_of(given);
    let asking = checking::<E>(given, process_id);
    let probing = rename::JobView { stage: rename::Stage::Probing, ..asking };
    let locating = rename::JobView { stage: rename::Stage::Locating, ..asking };
    let comparing = rename::JobView { stage: rename::Stage::Comparing, ..asking };
    assert(f.entries[i].name == given);
    assert(f.slot(given) == i);
    assert(f.has(composed) ==> !f.same_file(given, composed)) by {
        if f.has(composed) {
            assert(f.finds(composed, f.slot(composed)));
            assert(f.entries[f.slot(given)] == f.entries[i]);
        }
    }
    lemma_one_answer(
        f,
        given,
        i,
        comparing,
        RequestView::Compare(PlaceView::Given, composed),
        g,
        outcome,
    );
    lemma_locates(f, given, 0, locating, i, g, outcome);
    lemma_one_answer(f, given, 0, locating, RequestView::ListStored, g, outcome);
    assert(f.has(given));
    lemma_one_answer(f, given, 0, probing, RequestView::Probe, g, outcome);
}

/// From that question on, the job goes on to its rename to the first free choice.
proof fn lemma_exact_choice<E>(
    f: Folder,
    given: Seq<char>,
    at: int,
    process_id: u32,
    k: nat,
    g: Folder,
    outcome: OutcomeView<E>,
)
    requires
        first_free(f, normalizer::nfc_of(given), k),
        comes_to(
            f,
            given,
            at,
            rename::moving(
                rename::JobView { attempt: k, ..checking::<E>(given, process_id) },
                choice(normalizer::nfc_of(given), k),
            ),
            g,
            outcome,
        ),
    ensures
        comes_to(
            f,
            given,
            at,
            StepView::Ask(
                checking::<E>(given, process_id),
                RequestView::Exists(normalizer::nfc_of(given)),
            ),
            g,
            outcome,
        ),
{
    let composed = normalizer::nfc_of(given);
    let asking = checking::<E>(given, process_id);
    if k > 0 {
        assert(f.has(choice(composed, 0)));
        lemma_picks(f, given, at, asking, 1, k, g, outcome);
    }
    lemma_one_answer(f, given, at, asking, RequestView::Exists(composed), g, outcome);
}

/// Where names lead to files exactly as they are stored, a file whose name is not composed gets
/// the first free choice of a composed name. Every other file keeps its name and its place, and
/// none is replaced.
pub proof fn law_exact_names_move_to_first_free<E>(
    f: Folder,
    given: Seq<char>,
    i: int,
    k: nat,
    process_id: u32,
)
    requires
        f.wf(),
        !f.folds,
        f.keeps_names(),
        f.finds(given, i),
        !normalizer::skipped(given),
        normalizer::nfc_of(given) != given,
        first_free(f, normalizer::nfc_of(given), k),
        !f.refuses.contains(choice(normalizer::nfc_of(given), k)),
    ensures
        ({
            let composed = normalizer::nfc_of(given);
            comes_to(
                f,
                given,
                0,
                rename::started::<E>(Some(given), composed, true, process_id),
                f.with_name(i, choice(composed, k)),
                Ok(Some((given, choice(composed, k)))),
            )
        }),
{
    let target = choice(normalizer::nfc_of(given), k);
    let g = f.with_name(i, target);
    let outcome: OutcomeView<E> = Ok(Some((given, target)));
    let mover = rename::JobView { attempt: k, ..checking::<E>(given, process_id) };
    lemma_moves(f, given, i, mover, i, target);
    lemma_exact_choice(f, given, i, process_id, k, g, outcome);
    lemma_exact_start(f, given, i, process_id, g, outcome);
}

/// Where the composed name and all candidates for it are taken, the job says so and leaves the
/// directory as it is.
pub proof fn law_no_free_name_is_reported<E>(
    f: Folder,
    given: Seq<char>,
    i: int,
    process_id: u32,
)
    requires
        f.wf(),
        !f.folds,
        f.finds(given, i),
        !normalizer::skipped(given),
        normalizer::nfc_of(given) != given,
        all_taken(f, normalizer::nfc_of(given)),
    ensures
        comes_to(
            f,
            given,
            0,
            rename::started::<E>(Some(given), normalizer::nfc_of(given), true, process_id),
            f,
            Err(rename::RenameError::NoFreeName),
        ),
{
    let composed = normalizer::nfc_of(given);
    let asking = checking::<E>(given, process_id);
    let outcome: OutcomeView<E> = Err(rename::RenameError::NoFreeName);
    assert(f.has(choice(composed, 0)));
    lemma_exhausts(f, given, i, asking, 1);
    lemma_one_answer(f, given, i, asking, RequestView::Exists(composed), f, outcome);
    lemma_exact_start(f, given, i, process_id, f, outcome);
}

/// Where the one rename is refused, the job reports the refusal and the directory is as it was.
pub proof fn law_refused_move_changes_nothing<E>(
    f: Folder,
    given: Seq<char>,
    i: int,
    k: nat,
    process_id: u32,
)
    requires
        f.wf(),
        !f.folds,
        f.finds(given, i),
        !normalizer::skipped(given),
        normalizer::nfc_of(given) != given,
        first_free(f, normalizer::nfc_of(given), k),
        f.refuses.contains(choice(normalizer::nfc_of(given), k)),
    ensures
        comes_to(
            f,
            given,
            0,
            rename::started::<E>(Some(given), normalizer::nfc_of(given), true, process_id),
            f,
            Err(rename::RenameError::Io(refusal())),
        ),
{
    let target = choice(normalizer::nfc_of(given), k);
    let outcome: OutcomeView<E> = Err(rename::RenameError::Io(refusal()));
    let mover = rename::JobView { attempt: k, ..checking::<E>(given, process_id) };
    let moving = rename::JobView { stage: rename::Stage::Moving, target, ..mover };
    lemma_finished(f, given, i, outcome);
    lemma_one_answer(
        f,
        given,
        i,
        moving,
        RequestView::Rename(PlaceView::Given, PlaceView::Named(target)),
        f,
        outcome,
    );
    lemma_exact_choice(f, given, i, process_id, k, f, outcome);
    lemma_exact_start(f, given, i, process_id, f, outcome);
}

/// A file whose stored name is composed, hidden or temporary is left alone, whatever form of its
/// name leads to it: renaming it again by a stale path does nothing.
pub proof fn law_settled_names_are_left_alone<E>(
    f: Folder,
    given: Seq<char>,
    i: int,
    process_id: u32,
)
    requires
        f.wf(),
        f.finds(given, i),
        normalizer::skipped(f.entries[i].name) || normalizer::nfc_of(f.entries[i].name)
            == f.entries[i].name,
    ensures
        comes_to(
            f,
            given,
            0,
            rename::started::<E>(Some(given), normalizer::nfc_of(given), true, process_id),
            f,
            Ok(None),
        ),
{
    let composed = normalizer::nfc_of(given);
    let outcome: OutcomeView<E> = Ok(None);
    if normalizer::skipped(given) || composed == given {
        lemma_finished(f, given, 0, outcome);
    } else {
        let probing = rename::JobView::<E> {
            place: PlaceView::Given,
            name: given,
            composed,
            target: composed,
            attempt: 0,
            temp: rename::temp_name(process_id),
            has_parent: true,
            stage: rename::Stage::Probing,
        };
        let locating = rename::JobView { stage: rename::Stage::Locating, ..probing };
        assert(f.entries[i].name != given);
        lemma_finished(f, given, i, outcome);
        lemma_locates(f, given, 0, locating, i, f, outcome);
        lemma_one_answer(f, given, 0, locating, RequestView::ListStored, f, outcome);
        assert(f.has(given));
        lemma_one_answer(f, given, 0, probing, RequestView::Probe, f, outcome);
    }
}

/// A path that leads to nothing any more is given up without touching the directory.
pub proof fn law_vanished_files_are_given_up<E>(
    f: Folder,
    given: Seq<char>,
    has_parent: bool,
    process_id: u32,
)
    requires
        !f.has(given),
    ensures
        comes_to(
            f,
            given,
            0,
            rename::started::<E>(Some(given), normalizer::nfc_of(given), has_parent, process_id),
            f,
            Ok(None),
        ),
{
    let outcome: OutcomeView<E> = Ok(None);
    lemma_finished(f, given, 0, outcome);
    match rename::started::<E>(Some(given), normalizer::nfc_of(given), has_parent, process_id) {
        StepView::Ask(job, request) => {
            lemma_one_answer(f, given, 0, job, request, f, outcome);
        },
        StepView::Finish(_) => {},
    }
}

/// Renaming takes two steps: the path leads to the `i`-th entry by some form of its name, neither
/// the path nor the stored name is left alone, and what is stored is a form of the name that was
/// given.
pub open spec fn folds_in_two_steps(f: Folder, given: Seq<char>, i: int) -> bool {
    &&& f.wf()
    &&& f.folds
    &&& forall|n: Seq<char>| normalizer::nfc_of(#[trigger] (f.stores)(n)) == normalizer::nfc_of(n)
    &&& f.finds(given, i)
    &&& !normalizer::skipped(given)
    &&& normalizer::nfc_of(given) != given
    &&& !normalizer::skipped(f.entries[i].name)
    &&& normalizer::nfc_of(f.entries[i].name) != f.entries[i].name
    &&& normalizer::is_composed(normalizer::nfc_of(given))
}

/// The same, where the temporary name, if it is in use, is another file's.
pub open spec fn folds_to(f: Folder, given: Seq<char>, i: int, process_id: u32) -> bool {
    &&& folds_in_two_steps(f, given, i)
    &&& !f.finds(rename::temp_name(process_id), i)
}

/// A job that has found that the target leads to the file at hand.
pub open spec fn parking<E>(given: Seq<char>, stored: Seq<char>, process_id: u32) -> rename::JobView<
    E,
> {
    rename::JobView {
        place: if stored == given {
            PlaceView::Given
        } else {
            PlaceView::Named(stored)
        },
        name: stored,
        stage: rename::Stage::Parking,
        ..checking::<E>(given, process_id)
    }
}

/// A job comes to ask for the first of two renames.
proof fn lemma_folded_start<E>(
    f: Folder,
    given: Seq<char>,
    i: int,
    process_id: u32,
    g: Folder,
    outcome: OutcomeView<E>,
)
    requires
        folds_in_two_steps(f, given, i),
        ({
            let job = parking::<E>(given, f.entries[i].name, process_id);
            comes_to(
                f,
                given,
                i,
                StepView::Ask(
                    job,
                    RequestView::Rename(job.place, PlaceView::Named(job.temp)),
                ),
                g,
                outcome,
            )
        }),
    ensures
        comes_to(
            f,
            given,
            0,
            rename::started::<E>(Some(given), normalizer::nfc_of(given), true, process_id),
            g,
            outcome,
        ),
{
    let composed = normalizer::nfc_of(given);
    let stored = f.entries[i].name;
    let job = parking::<E>(given, stored, process_id);
    let comparing = rename::JobView { stage: rename::Stage::Comparing, ..job };
    let asking = checking::<E>(given, process_id);
    let probing = rename::JobView { stage: rename::Stage::Probing, ..asking };
    let locating = rename::JobView { stage: rename::Stage::Locating, ..asking };
    assert(f.finds(stored, i));
    assert(f.slot(stored) == i);
    assert(f.finds(composed, i));
    assert(f.slot(composed) == i);
    lemma_one_answer(f, given, i, comparing, RequestView::Compare(job.place, composed), g, outcome);
    lemma_locates(f, given, 0, locating, i, g, outcome);
    lemma_one_answer(f, given, 0, locating, RequestView::ListStored, g, outcome);
    assert(f.has(given));
    lemma_one_answer(f, given, 0, probing, RequestView::Probe, g, outcome);
}

/// The directory without the file that a name leads to: the other files are found where they then
/// stand, and that name leads to none of them.
pub proof fn lemma_cleared(f: Folder, name: Seq<char>, i: int)
    requires
        f.wf(),
        0 <= i < f.entries.len(),
        !f.finds(name, i),
    ensures
        f.cleared(name).wf(),
        !f.cleared(name).has(name),
        0 <= f.moved_up(name, i) < f.cleared(name).entries.len(),
        f.cleared(name).entries[f.moved_up(name, i)] == f.entries[i],
        forall|n: Seq<char>| f.finds(n, i) ==> #[trigger] f.cleared(name).finds(
            n,
            f.moved_up(name, i),
        ),
{
    let c = f.cleared(name);
    if f.has(name) {
        let j = f.slot(name);
        assert(f.finds(name, j));
        let back = |k: int| if k < j { k } else { k + 1 };
        assert forall|k: int| 0 <= k < c.entries.len() implies #[trigger] c.entries[k]
            == f.entries[back(k)] by {}
        assert forall|n: Seq<char>, k: int| #[trigger] c.finds(n, k) implies f.finds(n, back(k)) by {
            assert(c.entries[k] == f.entries[back(k)]);
        }
        assert forall|k: int| !(#[trigger] c.finds(name, k)) by {
            if c.finds(name, k) {
                assert(f.finds(name, back(k)));
            }
        }
        assert forall|n: Seq<char>, a: int, b: int|
            #[trigger] c.finds(n, a) && #[trigger] c.finds(n, b) implies a == b by {
            assert(f.finds(n, back(a)) && f.finds(n, back(b)));
        }
        assert forall|a: int, b: int|
            0 <= a < c.entries.len() && 0 <= b < c.entries.len() && (#[trigger] c.entries[a]).id
                == (#[trigger] c.entries[b]).id implies a == b by {
            assert(f.entries[back(a)].id == f.entries[back(b)].id);
        }
    }
}

/// Once the file bears the temporary name, that name leads to it and no form of its own name does.
proof fn lemma_parked(f: Folder, given: Seq<char>, i: int, process_id: u32, name: Seq<char>)
    requires
        folds_to(f, given, i, process_id),
        f.finds(name, i),
    ensures
        ({
            let temp = rename::temp_name(process_id);
            let c = f.cleared(temp);
            let at = f.moved_up(temp, i);
            let g = c.with_name(at, temp);
            &&& f.slot(f.entries[i].name) == i
            &&& f.renamed(i, temp) == g
            &&& g.slot(temp) == at
            &&& g.renamed(at, name) == c.with_name(at, name)
        }),
{
    let temp = rename::temp_name(process_id);
    lemma_cleared(f, temp, i);
    let c = f.cleared(temp);
    let at = f.moved_up(temp, i);
    let g = c.with_name(at, temp);
    assert(f.finds(f.entries[i].name, i));
    assert(c.finds(name, at));
    assert(!c.finds(temp, at));
    assert forall|k: int| #[trigger] g.finds(temp, k) implies k == at by {
        if k != at {
            assert(c.finds(temp, k));
        }
    }
    assert(g.finds(temp, at));
    assert forall|k: int| !(#[trigger] g.finds(name, k)) by {
        if g.finds(name, k) {
            if k != at {
                assert(c.finds(name, k));
            } else {
                assert(c.finds(temp, at));
            }
        }
    }
    assert(g.with_name(at, name).entries =~= c.with_name(at, name).entries);
}

/// Where every form of a name leads to the same file, a file whose stored name is not composed is
/// renamed in two steps through a temporary name, and ends up under what the file system makes of
/// the composed name. Where that is the composed name itself, the job reports the rename; where
/// it is not, the job reports that the name was not preserved. A file that bears the temporary name
/// gives way; every other file keeps its name.
pub proof fn law_folded_names_take_two_steps<E>(
    f: Folder,
    given: Seq<char>,
    i: int,
    process_id: u32,
)
    requires
        folds_to(f, given, i, process_id),
        !f.refuses.contains(rename::temp_name(process_id)),
        !f.refuses.contains(normalizer::nfc_of(given)),
    ensures
        ({
            let composed = normalizer::nfc_of(given);
            let temp = rename::temp_name(process_id);
            comes_to(
                f,
                given,
                0,
                rename::started::<E>(Some(given), composed, true, process_id),
                f.cleared(temp).with_name(f.moved_up(temp, i), composed),
                if (f.stores)(composed) == composed {
                    Ok(Some((f.entries[i].name, composed)))
                } else {
                    Err(rename::RenameError::NotPreserved)
                },
            )
        }),
{
    let composed = normalizer::nfc_of(given);
    let stored = f.entries[i].name;
    let temp = rename::temp_name(process_id);
    let c = f.cleared(temp);
    let at = f.moved_up(temp, i);
    let g = c.with_name(at, temp);
    let h = c.with_name(at, composed);
    let outcome: OutcomeView<E> = if (f.stores)(composed) == composed {
        Ok(Some((stored, composed)))
    } else {
        Err(rename::RenameError::NotPreserved)
    };
    let job = parking::<E>(given, stored, process_id);
    let unparking = rename::JobView { stage: rename::Stage::Unparking, ..job };
    assert(f.finds(composed, i));
    lemma_parked(f, given, i, process_id, composed);
    lemma_cleared(f, temp, i);
    assert(c.finds(composed, at));
    assert forall|k: int| 0 <= k < h.entries.len() && k != at implies (#[trigger] h.entries[k]).name
        != composed by {
        if h.entries[k].name == composed {
            assert(c.finds(composed, k));
        }
    }
    lemma_settles(h, given, i, unparking, at);
    lemma_one_answer(
        g,
        given,
        i,
        unparking,
        RequestView::Rename(PlaceView::Named(temp), PlaceView::Named(composed)),
        h,
        outcome,
    );
    lemma_one_answer(
        f,
        given,
        i,
        job,
        RequestView::Rename(job.place, PlaceView::Named(temp)),
        h,
        outcome,
    );
    lemma_folded_start(f, given, i, process_id, h, outcome);
}

/// A file that the temporary name itself leads to by another form cannot be renamed through it: the
/// directory is as it was, and the job reports that the name was not preserved.
pub proof fn law_bearer_of_temporary_name_is_reported<E>(
    f: Folder,
    given: Seq<char>,
    i: int,
    process_id: u32,
)
    requires
        folds_in_two_steps(f, given, i),
        f.finds(rename::temp_name(process_id), i),
        f.refuses_nothing(),
    ensures
        comes_to(
            f,
            given,
            0,
            rename::started::<E>(Some(given), normalizer::nfc_of(given), true, process_id),
            f,
            Err(rename::RenameError::NotPreserved),
        ),
{
    let composed = normalizer::nfc_of(given);
    let stored = f.entries[i].name;
    let temp = rename::temp_name(process_id);
    let outcome: OutcomeView<E> = Err(rename::RenameError::NotPreserved);
    let job = parking::<E>(given, stored, process_id);
    let unparking = rename::JobView { stage: rename::Stage::Unparking, ..job };
    assert(f.finds(composed, i));
    assert(f.finds(stored, i));
    assert(f.slot(stored) == i && f.slot(temp) == i);
    assert forall|k: int| 0 <= k < f.entries.len() && k != i implies (#[trigger] f.entries[k]).name
        != composed by {
        if f.entries[k].name == composed {
            assert(f.finds(composed, k));
        }
    }
    lemma_settles(f, given, i, unparking, i);
    lemma_one_answer(
        f,
        given,
        i,
        unparking,
        RequestView::Rename(PlaceView::Named(temp), PlaceView::Named(composed)),
        f,
        outcome,
    );
    lemma_one_answer(
        f,
        given,
        i,
        job,
        RequestView::Rename(job.place, PlaceView::Named(temp)),
        f,
        outcome,
    );
    lemma_folded_start(f, given, i, process_id, f, outcome);
}

/// Where the first of two renames is refused, the job reports the refusal and the directory is as
/// it was.
pub proof fn law_refused_first_step_changes_nothing<E>(
    f: Folder,
    given: Seq<char>,
    i: int,
    process_id: u32,
)
    requires
        folds_to(f, given, i, process_id),
        f.refuses.contains(rename::temp_name(process_id)),
    ensures
        comes_to(
            f,
            given,
            0,
            rename::started::<E>(Some(given), normalizer::nfc_of(given), true, process_id),
            f,
            Err(rename::RenameError::Io(refusal())),
        ),
{
    let job = parking::<E>(given, f.entries[i].name, process_id);
    let outcome: OutcomeView<E> = Err(rename::RenameError::Io(refusal()));
    lemma_finished(f, given, i, outcome);
    lemma_one_answer(
        f,
        given,
        i,
        job,
        RequestView::Rename(job.place, PlaceView::Named(job.temp)),
        f,
        outcome,
    );
    lemma_folded_start(f, given, i, process_id, f, outcome);
}

/// Where the second of two renames is refused, the job reports the refusal, and the file is back
/// under its old name: the directory is as it was, but for a file that bore the temporary name.
pub proof fn law_refused_second_step_is_undone<E>(
    f: Folder,
    given: Seq<char>,
    i: int,
    process_id: u32,
)
    requires
        folds_to(f, given, i, process_id),
        !f.refuses.contains(rename::temp_name(process_id)),
        f.refuses.contains(normalizer::nfc_of(given)),
        !f.refuses.contains(f.entries[i].name),
        (f.stores)(f.entries[i].name) == f.entries[i].name,
    ensures
        comes_to(
            f,
            given,
            0,
            rename::started::<E>(Some(given), normalizer::nfc_of(given), true, process_id),
            f.cleared(rename::temp_name(process_id)),
            Err(rename::RenameError::Io(refusal())),
        ),
{
    let composed = normalizer::nfc_of(given);
    let stored = f.entries[i].name;
    let temp = rename::temp_name(process_id);
    let c = f.cleared(temp);
    let at = f.moved_up(temp, i);
    let g = c.with_name(at, temp);
    let outcome: OutcomeView<E> = Err(rename::RenameError::Io(refusal()));
    let job = parking::<E>(given, stored, process_id);
    let unparking = rename::JobView { stage: rename::Stage::Unparking, ..job };
    let restoring = rename::JobView { stage: rename::Stage::Restoring(refusal::<E>()), ..job };
    assert(f.finds(stored, i));
    lemma_parked(f, given, i, process_id, stored);
    lemma_cleared(f, temp, i);
    assert(c.with_name(at, stored).entries =~= c.entries);
    lemma_finished(c, given, i, outcome);
    lemma_one_answer(
        g,
        given,
        i,
        restoring,
        RequestView::Rename(PlaceView::Named(temp), job.place),
        c,
        outcome,
    );
    lemma_one_answer(
        g,
        given,
        i,
        unparking,
        RequestView::Rename(PlaceView::Named(temp), PlaceView::Named(composed)),
        c,
        outcome,
    );
    lemma_one_answer(
        f,
        given,
        i,
        job,
        RequestView::Rename(job.place, PlaceView::Named(temp)),
        c,
        outcome,
    );
    lemma_folded_start(f, given, i, process_id, c, outcome);
}

/// Once a file of a directory with exact names has been renamed, its old path leads nowhere and its
/// new path to that same file; neither is taken up again.
pub proof fn law_exact_rerun_does_nothing<E>(
    f: Folder,
    given: Seq<char>,
    i: int,
    k: nat,
    process_id: u32,
)
    requires
        f.wf(),
        !f.folds,
        f.keeps_names(),
        f.finds(given, i),
        normalizer::nfc_of(given) != given,
        normalizer::is_composed(normalizer::nfc_of(given)),
        first_free(f, normalizer::nfc_of(given), k),
    ensures
        ({
            let target = choice(normalizer::nfc_of(given), k);
            let g = f.with_name(i, target);
            &&& g.wf()
            &&& g.finds(target, i) && g.entries[i].id == f.entries[i].id
            &&& !g.has(given)
            &&& comes_to(
                g,
                given,
                0,
                rename::started::<E>(Some(given), normalizer::nfc_of(given), true, process_id),
                g,
                Ok(None),
            )
            &&& comes_to(
                g,
                target,
                0,
                rename::started::<E>(Some(target), normalizer::nfc_of(target), true, process_id),
                g,
                Ok(None),
            )
        }),
{
    let composed = normalizer::nfc_of(given);
    let target = choice(composed, k);
    let g = f.with_name(i, target);
    if k > 0 {
        normalizer::law_candidates_stay_composed(composed, k);
    }
    assert(g.finds(target, i));
    assert forall|j: int| !(#[trigger] g.finds(given, j)) by {
        if g.finds(given, j) && j != i {
            assert(f.finds(given, j));
        }
    }
    assert forall|n: Seq<char>, a: int, b: int|
        #[trigger] g.finds(n, a) && #[trigger] g.finds(n, b) implies a == b by {
        if a != b {
            if a == i {
                assert(f.finds(target, b));
            } else if b == i {
                assert(f.finds(target, a));
            } else {
                assert(f.finds(n, a) && f.finds(n, b));
            }
        }
    }
    assert forall|a: int, b: int|
        0 <= a < g.entries.len() && 0 <= b < g.entries.len() && (#[trigger] g.entries[a]).id == (
        #[trigger] g.entries[b]).id implies a == b by {
        assert(f.entries[a].id == f.entries[b].id);
    }
    law_vanished_files_are_given_up::<E>(g, given, true, process_id);
    law_settled_names_are_left_alone::<E>(g, target, i, process_id);
}

/// Once a file of a directory that folds names has been renamed, every form of its name still leads
/// to it, and none is taken up again.
pub proof fn law_folded_rerun_does_nothing<E>(
    f: Folder,
    given: Seq<char>,
    again: Seq<char>,
    i: int,
    process_id: u32,
)
    requires
        f.wf(),
        f.folds,
        f.keeps_names(),
        f.finds(given, i),
        normalizer::is_composed(normalizer::nfc_of(given)),
        f.finds(again, i),
        !f.finds(rename::temp_name(process_id), i),
    ensures
        ({
            let temp = rename::temp_name(process_id);
            let at = f.moved_up(temp, i);
            let g = f.cleared(temp).with_name(at, normalizer::nfc_of(given));
            &&& g.wf()
            &&& g.finds(again, at) && g.entries[at].id == f.entries[i].id
            &&& comes_to(
                g,
                again,
                0,
                rename::started::<E>(Some(again), normalizer::nfc_of(again), true, process_id),
                g,
                Ok(None),
            )
        }),
{
    let temp = rename::temp_name(process_id);
    let c = f.cleared(temp);
    let at = f.moved_up(temp, i);
    let g = c.with_name(at, normalizer::nfc_of(given));
    lemma_cleared(f, temp, i);
    assert(c.finds(given, at) && c.finds(again, at));
    assert forall|n: Seq<char>, j: int| #[trigger] g.finds(n, j) == c.finds(n, j) by {
        if j == at {
            assert(normalizer::nfc_of(g.entries[at].name) == normalizer::nfc_of(
                c.entries[at].name,
            ));
        }
    }
    assert forall|n: Seq<char>, a: int, b: int|
        #[trigger] g.finds(n, a) && #[trigger] g.finds(n, b) implies a == b by {
        assert(c.finds(n, a) && c.finds(n, b));
    }
    assert forall|a: int, b: int|
        0 <= a < g.entries.len() && 0 <= b < g.entries.len() && (#[trigger] g.entries[a]).id == (
        #[trigger] g.entries[b]).id implies a == b by {
        assert(c.entries[a].id == c.entries[b].id);
    }
    assert(g.finds(again, at));
    law_settled_names_are_left_alone::<E>(g, again, at, process_id);
}

proof fn lemma_choices_differ(composed: Seq<char>, i: nat, j: nat)
    requires
        i < j <= 1000,
    ensures
        choice(composed, i) != choice(composed, j),
{
    if i == 0 {
        normalizer::law_candidates_differ(composed, j, if j == 1 {
            2
        } else {
            1
        });
    } else {
        normalizer::law_candidates_differ(composed, i, j);
    }
}

/// The first free choice lies at or before any free one.
pub proof fn lemma_first_free(f: Folder, composed: Seq<char>, k: nat)
    requires
        k <= 1000,
        !f.has(choice(composed, k)),
    ensures
        exists|first: nat| first_free(f, composed, first),
    decreases k,
{
    if forall|j: nat| j < k ==> f.has(#[trigger] choice(composed, j)) {
        assert(first_free(f, composed, k));
    } else {
        let j = choose|j: nat| j < k && !f.has(#[trigger] choice(composed, j));
        lemma_first_free(f, composed, j);
    }
}

/// A directory of at most a thousand files always has a free choice for a name.
pub proof fn law_small_folders_have_a_free_choice(f: Folder, composed: Seq<char>)
    requires
        !f.folds,
        f.entries.len() <= 1000,
    ensures
        exists|k: nat| first_free(f, composed, k),
{
    if exists|k: nat| k <= 1000 && !f.has(#[trigger] choice(composed, k)) {
        let k = choose|k: nat| k <= 1000 && !f.has(#[trigger] choice(composed, k));
        lemma_first_free(f, composed, k);
    } else {
        let slots = Seq::new(1001, |k: int| f.slot(choice(composed, k as nat)));
        assert forall|k: int| 0 <= k < 1001 implies 0 <= #[trigger] slots[k] < f.entries.len()
            && f.entries[slots[k]].name == choice(composed, k as nat) by {
            assert(f.has(choice(composed, k as nat)));
            assert(f.finds(choice(composed, k as nat), slots[k]));
        }
        assert(slots.no_duplicates()) by {
            assert forall|a: int, b: int| 0 <= a < b < 1001 implies slots[a] != slots[b] by {
                lemma_choices_differ(composed, a as nat, b as nat);
            }
        }
        slots.unique_seq_to_set();
        let all = vstd::set_lib::set_int_range(0, f.entries.len() as int);
        vstd::set_lib::lemma_int_range(0, f.entries.len() as int);
        assert(slots.to_set().subset_of(all));
        vstd::set_lib::lemma_len_subset(slots.to_set(), all);
    }
}

} // verus!
