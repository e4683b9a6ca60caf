//! How a rename job goes on after each answer of the file system.
use crate::guarantees::names;
use crate::normalizer;
use crate::rename::{
    JobView, PlaceView, RenameError, RenameJob, RenameStep, Reply, ReplyView, RequestView,
    Stage, StepView,
};
use crate::rename;
use crate::text;
use vstd::prelude::*;
use vstd::string::*;

verus! {

/// The job goes on by asking this, and has come to this.
pub open spec fn goes_on<E>(r: RenameStep<E>, next: JobView<E>, request: RequestView) -> bool {
    r matches RenameStep::Ask(job, asked) && job@ == next && asked@ == request
}

/// The job is over, with nothing to rename.
pub open spec fn has_nothing_to_do<E>(r: RenameStep<E>) -> bool {
    r matches RenameStep::Finish(Ok(None))
}

/// The job is over, with this error.
pub open spec fn fails_with<E>(r: RenameStep<E>, error: RenameError<E>) -> bool {
    r matches RenameStep::Finish(Err(e)) && e == error
}

/// The job at its start: the file is where the path says, and is to get the composed form of its
/// name.
pub open spec fn is_fresh<E>(
    job: JobView<E>,
    name: Seq<char>,
    composed: Seq<char>,
    has_parent: bool,
    process_id: u32,
) -> bool {
    &&& job.place == PlaceView::Given
    &&& job.name == name
    &&& job.composed == composed
    &&& job.target == composed
    &&& job.has_parent == has_parent
    &&& job.stage is Probing
    &&& exists|digits: Seq<char>|
        #![trigger names::is_numeral(digits, process_id as int)]
        names::is_numeral(digits, process_id as int) && job.temp == ".nfc-tmp-"@ + digits
}

/// A job that is started for an ordinary name, given another composed form of it, looks first
/// whether the file is there; for any other name, or where the composed form is the name, there is
/// nothing to do.
pub proof fn law_jobs_start_by_looking<E>(
    name: &str,
    composed: String,
    has_parent: bool,
    process_id: u32,
    r: RenameStep<E>,
)
    requires
        call_ensures(rename::start_with::<E>, (name, composed, has_parent, process_id), r),
    ensures
        names::is_ordinary(name@) && composed@ != name@ ==> (r matches RenameStep::Ask(job, request)
            && request is Probe && is_fresh(job@, name@, composed@, has_parent, process_id)),
        !(names::is_ordinary(name@) && composed@ != name@) ==> has_nothing_to_do(r),
{
    names::lemma_ordinary(name@);
    names::lemma_decimal_is_numeral(process_id as nat);
    match r {
        RenameStep::Ask(job, request) => {
            assert(StepView::Ask(job@, request@) == r@);
            let digits = text::decimal(process_id as nat);
            assert(names::is_numeral(digits, process_id as int));
        },
        RenameStep::Finish(outcome) => {
            assert(StepView::<E>::Finish(rename::outcome_view(outcome)) == r@);
        },
    }
}

/// A job for a path starts with the composed form of the name at its end; a path that ends in no
/// text has nothing to do.
pub proof fn law_jobs_compose_the_name<E>(
    name: Option<&str>,
    has_parent: bool,
    process_id: u32,
    r: RenameStep<E>,
)
    requires
        call_ensures(rename::try_normalize::<E>, (name, has_parent, process_id), r),
    ensures
        name is None ==> has_nothing_to_do(r),
        name matches Some(n) ==> (r matches RenameStep::Ask(job, request) ==> request is Probe
            && is_fresh(job@, n@, normalizer::nfc_of(n@), has_parent, process_id)),
{
    names::lemma_decimal_is_numeral(process_id as nat);
    match r {
        RenameStep::Ask(job, request) => {
            assert(StepView::Ask(job@, request@) == r@);
            let digits = text::decimal(process_id as nat);
            assert(names::is_numeral(digits, process_id as int));
        },
        RenameStep::Finish(outcome) => {
            assert(StepView::<E>::Finish(rename::outcome_view(outcome)) == r@);
        },
    }
}

/// A file that is not there any more leaves nothing to do; one without a directory is an error; for
/// any other the directory is listed.
pub proof fn law_jobs_need_the_file<E>(job: RenameJob<E>, present: bool, r: RenameStep<E>)
    requires
        call_ensures(RenameJob::<E>::resume, (job, Reply::Present(present)), r),
        job@.stage is Probing,
    ensures
        !present ==> has_nothing_to_do(r),
        present && !job@.has_parent ==> fails_with(r, RenameError::NoParent),
        present && job@.has_parent ==> goes_on(
            r,
            JobView { stage: Stage::Locating, ..job@ },
            RequestView::ListStored,
        ),
{
}

/// A listing that fails ends the job with what was reported.
pub proof fn law_failed_listings_are_reported<E>(job: RenameJob<E>, e: E, r: RenameStep<E>)
    requires
        call_ensures(RenameJob::<E>::resume, (job, Reply::ListFailed(e)), r),
        job@.stage is Locating || job@.stage is Confirming,
    ensures
        fails_with(r, RenameError::Io(e)),
{
    assert(r@ == StepView::<E>::Finish(Err(RenameError::Io(e))));
}

/// An entry that is not known to be the file at hand is passed over.
pub proof fn law_other_entries_are_passed_over<E>(
    job: RenameJob<E>,
    stored: Option<String>,
    same: Option<bool>,
    r: RenameStep<E>,
)
    requires
        call_ensures(RenameJob::<E>::resume, (job, Reply::Stored(stored, same)), r),
        job@.stage is Locating,
        same != Some(true),
    ensures
        goes_on(r, job@, RequestView::NextStored),
{
    assert(r@ == StepView::Ask(job@, RequestView::NextStored));
}

/// Once the entry of the file is found, the name it is stored under counts. Where that is the name
/// at hand, the file is compared with what its target leads to. Where it is another one, it is
/// judged as a name at hand would be.
pub proof fn law_stored_names_count<E>(job: RenameJob<E>, stored: String, r: RenameStep<E>)
    requires
        call_ensures(RenameJob::<E>::resume, (job, Reply::Stored(Some(stored), Some(true))), r),
        job@.stage is Locating,
    ensures
        stored@ == job@.name ==> goes_on(
            r,
            JobView { stage: Stage::Comparing, ..job@ },
            RequestView::Compare(job@.place, job@.target),
        ),
        stored@ != job@.name && names::is_ordinary(stored@) && normalizer::nfc_of(stored@)
            != stored@ ==> goes_on(
            r,
            JobView {
                place: PlaceView::Named(stored@),
                name: stored@,
                composed: normalizer::nfc_of(stored@),
                target: normalizer::nfc_of(stored@),
                stage: Stage::Comparing,
                ..job@
            },
            RequestView::Compare(PlaceView::Named(stored@), normalizer::nfc_of(stored@)),
        ),
        stored@ != job@.name && !(names::is_ordinary(stored@) && normalizer::nfc_of(stored@)
            != stored@) ==> has_nothing_to_do(r),
{
    names::lemma_ordinary(stored@);
    assert(r@ == rename::located(job@, stored@, normalizer::nfc_of(stored@)));
    match r {
        RenameStep::Ask(_, _) => {},
        RenameStep::Finish(outcome) => {
            assert(StepView::<E>::Finish(rename::outcome_view(outcome)) == r@);
        },
    }
}

/// The same, given the composed form of the stored name.
pub proof fn law_stored_names_are_judged<E>(
    job: RenameJob<E>,
    stored: String,
    composed: String,
    r: RenameStep<E>,
)
    requires
        call_ensures(RenameJob::<E>::locate_with, (job, stored, composed), r),
    ensures
        stored@ == job@.name ==> goes_on(
            r,
            JobView { stage: Stage::Comparing, ..job@ },
            RequestView::Compare(job@.place, job@.target),
        ),
        stored@ != job@.name && names::is_ordinary(stored@) && composed@ != stored@ ==> goes_on(
            r,
            JobView {
                place: PlaceView::Named(stored@),
                name: stored@,
                composed: composed@,
                target: composed@,
                stage: Stage::Comparing,
                ..job@
            },
            RequestView::Compare(PlaceView::Named(stored@), composed@),
        ),
        stored@ != job@.name && !(names::is_ordinary(stored@) && composed@ != stored@)
            ==> has_nothing_to_do(r),
{
    names::lemma_ordinary(stored@);
    match r {
        RenameStep::Ask(_, _) => {},
        RenameStep::Finish(outcome) => {
            assert(StepView::<E>::Finish(rename::outcome_view(outcome)) == r@);
        },
    }
}

/// Where the entry of the file is not found, or its name is no text, the job goes by the name at
/// hand.
pub proof fn law_jobs_go_by_the_name_at_hand<E>(
    job: RenameJob<E>,
    reply: Reply<E>,
    r: RenameStep<E>,
)
    requires
        call_ensures(RenameJob::<E>::resume, (job, reply), r),
        job@.stage is Locating,
        reply is ListEnd || reply == Reply::<E>::Stored(None, Some(true)),
    ensures
        goes_on(
            r,
            JobView { stage: Stage::Comparing, ..job@ },
            RequestView::Compare(job@.place, job@.target),
        ),
{
    assert(r@ == rename::compared(job@));
}

/// A file that its target leads to gets the temporary name first; for any other it is asked whether
/// the target is taken.
pub proof fn law_the_same_file_is_parked<E>(
    job: RenameJob<E>,
    same: Option<bool>,
    r: RenameStep<E>,
)
    requires
        call_ensures(RenameJob::<E>::resume, (job, Reply::Same(same)), r),
        job@.stage is Comparing,
    ensures
        same == Some(true) ==> goes_on(
            r,
            JobView { stage: Stage::Parking, ..job@ },
            RequestView::Rename(job@.place, PlaceView::Named(job@.temp)),
        ),
        same != Some(true) ==> goes_on(
            r,
            JobView { stage: Stage::CheckingTarget, ..job@ },
            RequestView::Exists(job@.target),
        ),
{
}

/// A free target is what the file is renamed to. Where it is taken, the first candidate for the
/// composed name is asked for, then the next, up to the thousandth; where that is taken too, the
/// job fails.
pub proof fn law_taken_names_are_passed_over<E>(job: RenameJob<E>, taken: bool, r: RenameStep<E>)
    requires
        call_ensures(RenameJob::<E>::resume, (job, Reply::Exists(taken)), r),
        job@.stage is CheckingTarget || job@.stage is Choosing,
    ensures
        !taken ==> goes_on(
            r,
            JobView { stage: Stage::Moving, ..job@ },
            RequestView::Rename(job@.place, PlaceView::Named(job@.target)),
        ),
        taken ==> {
            let i: nat = if job@.stage is CheckingTarget {
                1
            } else {
                job@.attempt + 1
            };
            let candidate = normalizer::candidate_name(job@.composed, i);
            if i <= 1000 {
                goes_on(
                    r,
                    JobView { stage: Stage::Choosing, attempt: i, target: candidate, ..job@ },
                    RequestView::Exists(candidate),
                )
            } else {
                fails_with(r, RenameError::NoFreeName)
            }
        },
{
    match r {
        RenameStep::Ask(_, _) => {},
        RenameStep::Finish(outcome) => {
            assert(StepView::<E>::Finish(rename::outcome_view(outcome)) == r@);
        },
    }
}

/// After a rename that was made, a parked file goes on to its target, and any other is looked for in
/// the listing.
pub proof fn law_renames_that_were_made_go_on<E>(job: RenameJob<E>, r: RenameStep<E>)
    requires
        call_ensures(RenameJob::<E>::resume, (job, Reply::Renamed(Ok(()))), r),
    ensures
        job@.stage is Parking ==> goes_on(
            r,
            JobView { stage: Stage::Unparking, ..job@ },
            RequestView::Rename(PlaceView::Named(job@.temp), PlaceView::Named(job@.target)),
        ),
        job@.stage is Moving || job@.stage is Unparking ==> goes_on(
            r,
            JobView { stage: Stage::Confirming, ..job@ },
            RequestView::ListNames,
        ),
{
    assert(r@ == rename::resumed(job@, ReplyView::Renamed(Ok(()))));
}

/// A rename that fails ends the job with what was reported, but for the second one of a parked file:
/// that is given its old place back first.
pub proof fn law_failed_renames_are_reported<E>(job: RenameJob<E>, e: E, r: RenameStep<E>)
    requires
        call_ensures(RenameJob::<E>::resume, (job, Reply::Renamed(Err(e))), r),
    ensures
        job@.stage is Moving || job@.stage is Parking ==> fails_with(r, RenameError::Io(e)),
        job@.stage is Unparking ==> goes_on(
            r,
            JobView { stage: Stage::Restoring(e), ..job@ },
            RequestView::Rename(PlaceView::Named(job@.temp), job@.place),
        ),
{
    assert(r@ == rename::resumed(job@, ReplyView::Renamed(Err(e))));
    match r {
        RenameStep::Ask(_, _) => {},
        RenameStep::Finish(outcome) => {
            assert(StepView::<E>::Finish(rename::outcome_view(outcome)) == r@);
        },
    }
}

/// Once a parked file was given its old place back, or could not be, the failure that led there is
/// reported.
pub proof fn law_the_first_failure_is_reported<E>(
    job: RenameJob<E>,
    first: E,
    last: Result<(), E>,
    r: RenameStep<E>,
)
    requires
        call_ensures(RenameJob::<E>::resume, (job, Reply::Renamed(last)), r),
        job@.stage == Stage::Restoring(first),
    ensures
        fails_with(r, RenameError::Io(first)),
{
    assert(r@ == StepView::<E>::Finish(Err(RenameError::Io(first))));
}

/// A rename is reported, with the names before and after, if and only if the listing shows the
/// target; other entries are passed over, and a listing that ends without it is an error.
pub proof fn law_renames_are_confirmed<E>(job: RenameJob<E>, reply: Reply<E>, r: RenameStep<E>)
    requires
        call_ensures(RenameJob::<E>::resume, (job, reply), r),
        job@.stage is Confirming,
        reply is Listed || reply is ListEnd,
    ensures
        reply matches Reply::Listed(Some(name)) && name@ == job@.target ==> (
        r matches RenameStep::Finish(Ok(Some((from, to)))) && from@ == job@.name && to@
            == job@.target),
        reply matches Reply::Listed(name) && rename::opt_text(name) != Some(job@.target) ==> goes_on(
            r,
            job@,
            RequestView::NextName,
        ),
        reply is ListEnd ==> fails_with(r, RenameError::NotPreserved),
{
    match r {
        RenameStep::Ask(_, _) => {},
        RenameStep::Finish(outcome) => {
            assert(StepView::<E>::Finish(rename::outcome_view(outcome)) == r@);
        },
    }
}

/// Jobs as they are run are those that the model of directories speaks of: they start and go on as
/// it has them, and stay valid.
pub proof fn law_jobs_follow_the_model<E>(
    name: &str,
    has_parent: bool,
    process_id: u32,
    start: RenameStep<E>,
    job: RenameJob<E>,
    reply: Reply<E>,
    r: RenameStep<E>,
)
    requires
        call_ensures(rename::try_normalize::<E>, (Some(name), has_parent, process_id), start),
        call_ensures(RenameJob::<E>::resume, (job, reply), r),
        rename::expects(job@.stage, reply@),
        rename::valid(job@),
    ensures
        start@ == rename::started::<E>(
            Some(name@),
            normalizer::nfc_of(name@),
            has_parent,
            process_id,
        ),
        rename::step_valid(start@),
        r@ == rename::resumed(job@, reply@),
        rename::step_valid(r@),
{
}

} // verus!
