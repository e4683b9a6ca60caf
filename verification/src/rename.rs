//! Renaming one file to its composed name, as a conversation with the file system: every step
//! asks for one thing, and the answer decides the next step.
use crate::normalizer;
use crate::text;
use vstd::prelude::*;
use vstd::string::*;

verus! {

/// Why a file could not be renamed. `E` is what the file system reports.
pub enum RenameError<E> {
    /// The path has no directory to list.
    NoParent,
    /// The composed name and all candidates for it are taken.
    NoFreeName,
    /// The file is stored under another name than the one it was given.
    NotPreserved,
    /// The file system refused a listing or a rename.
    Io(E),
}

/// A file of the directory at hand.
pub enum Place {
    /// The path that was handed in.
    Given,
    /// The file of this name in the parent directory.
    Named(String),
}

/// What the file system is asked to do next.
pub enum Request {
    /// Look whether the path that was handed in still names something.
    Probe,
    /// List the parent directory, giving for its first entry the name and whether it is the file
    /// at the path that was handed in.
    ListStored,
    /// Go on to the next entry of that listing.
    NextStored,
    /// Tell whether a place and a name in the parent directory lead to the same file.
    Compare(Place, String),
    /// Look whether the name leads to something in the parent directory.
    Exists(String),
    /// Rename one place to another.
    Rename(Place, Place),
    /// List the parent directory, giving the name of its first entry.
    ListNames,
    /// Go on to the next entry of that listing.
    NextName,
}

/// What the file system answers.
pub enum Reply<E> {
    /// To `Probe`.
    Present(bool),
    /// To `ListStored` and `ListNames`: the directory cannot be listed.
    ListFailed(E),
    /// To `ListStored` and `NextStored`: an entry's name, where it is text, and whether the entry
    /// is the file at hand, where that can be told.
    Stored(Option<String>, Option<bool>),
    /// To `ListNames` and `NextName`: an entry's name, where it is text.
    Listed(Option<String>),
    /// The listing has no further entry.
    ListEnd,
    /// To `Compare`: whether it is the same file, where that can be told.
    Same(Option<bool>),
    /// To `Exists`.
    Exists(bool),
    /// To `Rename`.
    Renamed(Result<(), E>),
}

/// What the job waits for.
pub enum Stage<E> {
    Probing,
    Locating,
    Comparing,
    CheckingTarget,
    Choosing,
    Moving,
    Parking,
    Unparking,
    Restoring(E),
    Confirming,
}

/// A file on its way to its composed name.
pub struct RenameJob<E> {
    place: Place,
    name: String,
    composed: String,
    target: String,
    attempt: u32,
    temp: String,
    has_parent: bool,
    stage: Stage<E>,
}

/// What a rename came to: the names before and after, or nothing to do.
pub type Outcome<E> = Result<Option<(String, String)>, RenameError<E>>;

/// The next thing to ask, or the end.
pub enum RenameStep<E> {
    Ask(RenameJob<E>, Request),
    Finish(Outcome<E>),
}

pub enum PlaceView {
    Given,
    Named(Seq<char>),
}

pub enum RequestView {
    Probe,
    ListStored,
    NextStored,
    Compare(PlaceView, Seq<char>),
    Exists(Seq<char>),
    Rename(PlaceView, PlaceView),
    ListNames,
    NextName,
}

pub enum ReplyView<E> {
    Present(bool),
    ListFailed(E),
    Stored(Option<Seq<char>>, Option<bool>),
    Listed(Option<Seq<char>>),
    ListEnd,
    Same(Option<bool>),
    Exists(bool),
    Renamed(Result<(), E>),
}

pub struct JobView<E> {
    /// Where the file is.
    pub place: PlaceView,
    /// The name it is stored under.
    pub name: Seq<char>,
    /// The composed form of that name.
    pub composed: Seq<char>,
    /// The name it is to get: the composed form, or a candidate where that is taken.
    pub target: Seq<char>,
    /// The number of the candidate that is being looked at.
    pub attempt: nat,
    /// The name it bears between the two renames of a file that is found under both its old name
    /// and its target.
    pub temp: Seq<char>,
    pub has_parent: bool,
    pub stage: Stage<E>,
}

pub type OutcomeView<E> = Result<Option<(Seq<char>, Seq<char>)>, RenameError<E>>;

pub enum StepView<E> {
    Ask(JobView<E>, RequestView),
    Finish(OutcomeView<E>),
}

pub open spec fn opt_text(s: Option<String>) -> Option<Seq<char>> {
    match s {
        Some(s) => Some(s@),
        None => None,
    }
}

pub open spec fn outcome_view<E>(o: Outcome<E>) -> OutcomeView<E> {
    match o {
        Ok(Some((a, b))) => Ok(Some((a@, b@))),
        Ok(None) => Ok(None),
        Err(e) => Err(e),
    }
}

impl View for Place {
    type V = PlaceView;

    open spec fn view(&self) -> PlaceView {
        match *self {
            Place::Given => PlaceView::Given,
            Place::Named(n) => PlaceView::Named(n@),
        }
    }
}

impl View for Request {
    type V = RequestView;

    open spec fn view(&self) -> RequestView {
        match *self {
            Request::Probe => RequestView::Probe,
            Request::ListStored => RequestView::ListStored,
            Request::NextStored => RequestView::NextStored,
            Request::Compare(p, n) => RequestView::Compare(p@, n@),
            Request::Exists(n) => RequestView::Exists(n@),
            Request::Rename(a, b) => RequestView::Rename(a@, b@),
            Request::ListNames => RequestView::ListNames,
            Request::NextName => RequestView::NextName,
        }
    }
}

impl<E> View for Reply<E> {
    type V = ReplyView<E>;

    open spec fn view(&self) -> ReplyView<E> {
        match *self {
            Reply::Present(b) => ReplyView::Present(b),
            Reply::ListFailed(e) => ReplyView::ListFailed(e),
            Reply::Stored(n, s) => ReplyView::Stored(opt_text(n), s),
            Reply::Listed(n) => ReplyView::Listed(opt_text(n)),
            Reply::ListEnd => ReplyView::ListEnd,
            Reply::Same(s) => ReplyView::Same(s),
            Reply::Exists(b) => ReplyView::Exists(b),
            Reply::Renamed(r) => ReplyView::Renamed(r),
        }
    }
}

impl<E> View for RenameJob<E> {
    type V = JobView<E>;

    closed spec fn view(&self) -> JobView<E> {
        JobView {
            place: self.place@,
            name: self.name@,
            composed: self.composed@,
            target: self.target@,
            attempt: self.attempt as nat,
            temp: self.temp@,
            has_parent: self.has_parent,
            stage: self.stage,
        }
    }
}

impl<E> View for RenameStep<E> {
    type V = StepView<E>;

    open spec fn view(&self) -> StepView<E> {
        match *self {
            RenameStep::Ask(j, r) => StepView::Ask(j@, r@),
            RenameStep::Finish(o) => StepView::Finish(outcome_view(o)),
        }
    }
}

/// The name a file bears between two renames, hidden so that nothing else picks it up.
pub open spec fn temp_name(process_id: u32) -> Seq<char> {
    ".nfc-tmp-"@ + text::decimal(process_id as nat)
}

/// How a job starts, given the name at the end of the path (where it is text) and the composed
/// form of that name.
pub open spec fn started<E>(
    name: Option<Seq<char>>,
    composed: Seq<char>,
    has_parent: bool,
    process_id: u32,
) -> StepView<E> {
    match name {
        None => StepView::Finish(Ok(None)),
        Some(n) => if normalizer::skipped(n) || composed == n {
            StepView::Finish(Ok(None))
        } else {
            StepView::Ask(
                JobView {
                    place: PlaceView::Given,
                    name: n,
                    composed,
                    target: composed,
                    attempt: 0,
                    temp: temp_name(process_id),
                    has_parent,
                    stage: Stage::Probing,
                },
                RequestView::Probe,
            )
        },
    }
}

/// How a job goes on once the listing has told the stored name, given its composed form. A stored
/// name other than the one at hand is judged anew.
pub open spec fn located<E>(
    j: JobView<E>,
    stored: Seq<char>,
    composed: Seq<char>,
) -> StepView<E> {
    if stored == j.name {
        compared(j)
    } else if normalizer::skipped(stored) || composed == stored {
        StepView::Finish(Ok(None))
    } else {
        compared(
            JobView {
                place: PlaceView::Named(stored),
                name: stored,
                composed,
                target: composed,
                ..j
            },
        )
    }
}

pub open spec fn compared<E>(j: JobView<E>) -> StepView<E> {
    StepView::Ask(
        JobView { stage: Stage::Comparing, ..j },
        RequestView::Compare(j.place, j.target),
    )
}

/// Asks whether the `i`-th candidate is taken.
pub open spec fn choosing<E>(j: JobView<E>, i: nat) -> StepView<E> {
    let target = normalizer::candidate_name(j.composed, i);
    StepView::Ask(
        JobView { stage: Stage::Choosing, attempt: i, target, ..j },
        RequestView::Exists(target),
    )
}

/// Asks for the one rename that a job makes where the target is another file's name or free.
pub open spec fn moving<E>(j: JobView<E>, target: Seq<char>) -> StepView<E> {
    StepView::Ask(
        JobView { stage: Stage::Moving, target, ..j },
        RequestView::Rename(j.place, PlaceView::Named(target)),
    )
}

pub open spec fn confirming<E>(j: JobView<E>) -> StepView<E> {
    StepView::Ask(JobView { stage: Stage::Confirming, ..j }, RequestView::ListNames)
}

/// The replies that answer what a job waits for.
pub open spec fn expects<E>(stage: Stage<E>, reply: ReplyView<E>) -> bool {
    match stage {
        Stage::Probing => reply is Present,
        Stage::Locating => reply is ListFailed || reply is Stored || reply is ListEnd,
        Stage::Comparing => reply is Same,
        Stage::CheckingTarget => reply is Exists,
        Stage::Choosing => reply is Exists,
        Stage::Moving => reply is Renamed,
        Stage::Parking => reply is Renamed,
        Stage::Unparking => reply is Renamed,
        Stage::Restoring(_) => reply is Renamed,
        Stage::Confirming => reply is ListFailed || reply is Listed || reply is ListEnd,
    }
}

/// How a job goes on after a reply that it expects.
pub open spec fn resumed<E>(j: JobView<E>, reply: ReplyView<E>) -> StepView<E> {
    match (j.stage, reply) {
        (Stage::Probing, ReplyView::Present(present)) => if !present {
            StepView::Finish(Ok(None))
        } else if !j.has_parent {
            StepView::Finish(Err(RenameError::NoParent))
        } else {
            StepView::Ask(JobView { stage: Stage::Locating, ..j }, RequestView::ListStored)
        },
        (Stage::Locating, ReplyView::Stored(name, same)) => if same == Some(true) {
            match name {
                Some(n) => located(j, n, normalizer::nfc_of(n)),
                None => compared(j),
            }
        } else {
            StepView::Ask(j, RequestView::NextStored)
        },
        (Stage::Locating, ReplyView::ListEnd) => compared(j),
        (Stage::Comparing, ReplyView::Same(same)) => if same == Some(true) {
            StepView::Ask(
                JobView { stage: Stage::Parking, ..j },
                RequestView::Rename(j.place, PlaceView::Named(j.temp)),
            )
        } else {
            StepView::Ask(
                JobView { stage: Stage::CheckingTarget, ..j },
                RequestView::Exists(j.target),
            )
        },
        (Stage::CheckingTarget, ReplyView::Exists(taken)) => if taken {
            choosing(j, 1)
        } else {
            moving(j, j.target)
        },
        (Stage::Choosing, ReplyView::Exists(taken)) => if !taken {
            moving(j, j.target)
        } else if j.attempt < 1000 {
            choosing(j, j.attempt + 1)
        } else {
            StepView::Finish(Err(RenameError::NoFreeName))
        },
        (Stage::Moving, ReplyView::Renamed(Ok(_))) => confirming(j),
        (Stage::Parking, ReplyView::Renamed(Ok(_))) => StepView::Ask(
            JobView { stage: Stage::Unparking, ..j },
            RequestView::Rename(PlaceView::Named(j.temp), PlaceView::Named(j.target)),
        ),
        (Stage::Unparking, ReplyView::Renamed(Ok(_))) => confirming(j),
        (Stage::Unparking, ReplyView::Renamed(Err(e))) => StepView::Ask(
            JobView { stage: Stage::Restoring(e), ..j },
            RequestView::Rename(PlaceView::Named(j.temp), j.place),
        ),
        (Stage::Restoring(e), _) => StepView::Finish(Err(RenameError::Io(e))),
        (Stage::Confirming, ReplyView::Listed(name)) => if name == Some(j.target) {
            StepView::Finish(Ok(Some((j.name, j.target))))
        } else {
            StepView::Ask(j, RequestView::NextName)
        },
        (Stage::Confirming, ReplyView::ListEnd) => StepView::Finish(
            Err(RenameError::NotPreserved),
        ),
        (_, ReplyView::Renamed(Err(e))) => StepView::Finish(Err(RenameError::Io(e))),
        (_, ReplyView::ListFailed(e)) => StepView::Finish(Err(RenameError::Io(e))),
        (_, _) => arbitrary(),
    }
}

/// What holds of every job: the file is one to rename, its composed form is what it is called,
/// and whatever target has been settled on is in composed form.
pub open spec fn valid<E>(j: JobView<E>) -> bool {
    &&& !normalizer::skipped(j.name)
    &&& normalizer::nfc_of(j.name) == j.composed
    &&& j.composed != j.name
    &&& normalizer::is_composed(j.composed)
    &&& match j.stage {
        Stage::Probing | Stage::Locating | Stage::Comparing | Stage::CheckingTarget
        | Stage::Parking | Stage::Unparking | Stage::Restoring(_) => j.target == j.composed,
        Stage::Choosing => 1 <= j.attempt <= 1000 && j.target == normalizer::candidate_name(
            j.composed,
            j.attempt,
        ),
        Stage::Moving | Stage::Confirming => j.target == j.composed || exists|i: nat|
            1 <= i <= 1000 && j.target == #[trigger] normalizer::candidate_name(j.composed, i),
    }
    &&& match j.place {
        PlaceView::Given => true,
        PlaceView::Named(n) => n == j.name,
    }
}

pub open spec fn step_valid<E>(s: StepView<E>) -> bool {
    s matches StepView::Ask(j, _) ==> valid(j)
}

/// The name a file bears between two renames.
pub fn temp_name_of(process_id: u32) -> (r: String)
    ensures
        r@ == temp_name(process_id),
{
    let mut out: String = ".nfc-tmp-".to_owned();
    text::append_decimal(&mut out, process_id);
    out
}

/// Starts a job whose name and composed form are known.
pub fn start_with<E>(name: &str, composed: String, has_parent: bool, process_id: u32) -> (r:
    RenameStep<E>)
    ensures
        r@ == started::<E>(Some(name@), composed@, has_parent, process_id),
{
    if normalizer::should_skip(name) || !normalizer::differs_from_composed(name, composed.as_str()) {
        return RenameStep::Finish(Ok(None));
    }
    let target: String = composed.clone();
    let job = RenameJob {
        place: Place::Given,
        name: name.to_owned(),
        composed,
        target,
        attempt: 0,
        temp: temp_name_of(process_id),
        has_parent,
        stage: Stage::Probing,
    };
    RenameStep::Ask(job, Request::Probe)
}

/// Starts renaming the file at a path whose last component is `name`, where that is text.
pub fn try_normalize<E>(name: Option<&str>, has_parent: bool, process_id: u32) -> (r: RenameStep<E>)
    ensures
        r@ == (match name {
            Some(n) => started::<E>(Some(n@), normalizer::nfc_of(n@), has_parent, process_id),
            None => StepView::Finish(Ok(None)),
        }),
        step_valid(r@),
{
    match name {
        Some(n) => start_with(n, normalizer::nfc(n), has_parent, process_id),
        None => RenameStep::Finish(Ok(None)),
    }
}

impl<E> RenameJob<E> {
    /// Goes on with the stored name of the file and the composed form of that name.
    pub fn locate_with(self, stored: String, composed: String) -> (r: RenameStep<E>)
        ensures
            r@ == located(self@, stored@, composed@),
    {
        if stored == self.name {
            return self.compare();
        }
        if normalizer::should_skip(stored.as_str()) || !normalizer::differs_from_composed(
            stored.as_str(),
            composed.as_str(),
        ) {
            return RenameStep::Finish(Ok(None));
        }
        let place = Place::Named(stored.clone());
        let target: String = composed.clone();
        let job = RenameJob { place, name: stored, composed, target, ..self };
        job.compare()
    }

    fn place_again(&self) -> (r: Place)
        ensures
            r@ == self@.place,
    {
        match &self.place {
            Place::Given => Place::Given,
            Place::Named(n) => Place::Named(n.clone()),
        }
    }

    fn compare(self) -> (r: RenameStep<E>)
        ensures
            r@ == compared(self@),
    {
        let request = Request::Compare(self.place_again(), self.target.clone());
        RenameStep::Ask(RenameJob { stage: Stage::Comparing, ..self }, request)
    }

    fn try_candidate(self, i: u32) -> (r: RenameStep<E>)
        ensures
            r@ == choosing(self@, i as nat),
    {
        let target: String = normalizer::unique_target(self.composed.as_str(), i);
        let request = Request::Exists(target.clone());
        RenameStep::Ask(
            RenameJob { stage: Stage::Choosing, attempt: i, target, ..self },
            request,
        )
    }

    fn move_to(self, target: String) -> (r: RenameStep<E>)
        ensures
            r@ == moving(self@, target@),
    {
        let request = Request::Rename(self.place_again(), Place::Named(target.clone()));
        RenameStep::Ask(RenameJob { stage: Stage::Moving, target, ..self }, request)
    }

    fn confirm(self) -> (r: RenameStep<E>)
        ensures
            r@ == confirming(self@),
    {
        RenameStep::Ask(RenameJob { stage: Stage::Confirming, ..self }, Request::ListNames)
    }

    /// Goes on after a reply. A job that is valid stays so.
    pub fn resume(self, reply: Reply<E>) -> (r: RenameStep<E>)
        requires
            expects(self@.stage, reply@),
        ensures
            r@ == resumed(self@, reply@),
            valid(self@) ==> step_valid(r@),
    {
        match reply {
            Reply::Present(present) => {
                if !present {
                    RenameStep::Finish(Ok(None))
                } else if !self.has_parent {
                    RenameStep::Finish(Err(RenameError::NoParent))
                } else {
                    RenameStep::Ask(
                        RenameJob { stage: Stage::Locating, ..self },
                        Request::ListStored,
                    )
                }
            },
            Reply::Stored(name, same) => {
                if same.is_some() && same.unwrap() {
                    match name {
                        Some(stored) => {
                            let composed: String = normalizer::nfc(stored.as_str());
                            self.locate_with(stored, composed)
                        },
                        None => self.compare(),
                    }
                } else {
                    RenameStep::Ask(self, Request::NextStored)
                }
            },
            Reply::ListEnd => {
                match &self.stage {
                    Stage::Locating => self.compare(),
                    _ => RenameStep::Finish(Err(RenameError::NotPreserved)),
                }
            },
            Reply::ListFailed(e) => RenameStep::Finish(Err(RenameError::Io(e))),
            Reply::Same(same) => {
                if same.is_some() && same.unwrap() {
                    let request = Request::Rename(
                        self.place_again(),
                        Place::Named(self.temp.clone()),
                    );
                    RenameStep::Ask(RenameJob { stage: Stage::Parking, ..self }, request)
                } else {
                    let request = Request::Exists(self.target.clone());
                    RenameStep::Ask(RenameJob { stage: Stage::CheckingTarget, ..self }, request)
                }
            },
            Reply::Exists(taken) => {
                if !taken {
                    let target: String = self.target.clone();
                    self.move_to(target)
                } else {
                    match &self.stage {
                        Stage::CheckingTarget => self.try_candidate(1),
                        _ => if self.attempt < 1000 {
                            let next: u32 = self.attempt + 1;
                            self.try_candidate(next)
                        } else {
                            RenameStep::Finish(Err(RenameError::NoFreeName))
                        },
                    }
                }
            },
            Reply::Renamed(result) => self.renamed(result),
            Reply::Listed(name) => {
                match name {
                    Some(n) => if n == self.target {
                        RenameStep::Finish(Ok(Some((self.name, self.target))))
                    } else {
                        RenameStep::Ask(self, Request::NextName)
                    },
                    None => RenameStep::Ask(self, Request::NextName),
                }
            },
        }
    }

    fn renamed(self, result: Result<(), E>) -> (r: RenameStep<E>)
        requires
            expects(self@.stage, ReplyView::Renamed(result)),
        ensures
            r@ == resumed(self@, ReplyView::Renamed(result)),
    {
        let place = self.place_again();
        let temp: String = self.temp.clone();
        match result {
            Ok(_) => match self.stage {
                Stage::Parking => {
                    let request = Request::Rename(
                        Place::Named(temp),
                        Place::Named(self.target.clone()),
                    );
                    RenameStep::Ask(RenameJob { stage: Stage::Unparking, ..self }, request)
                },
                Stage::Restoring(e) => RenameStep::Finish(Err(RenameError::Io(e))),
                _ => RenameJob { stage: Stage::Confirming, ..self }.confirm(),
            },
            Err(e) => match self.stage {
                Stage::Unparking => RenameStep::Ask(
                    RenameJob { stage: Stage::Restoring(e), ..self },
                    Request::Rename(Place::Named(temp), place),
                ),
                Stage::Restoring(first) => RenameStep::Finish(Err(RenameError::Io(first))),
                _ => RenameStep::Finish(Err(RenameError::Io(e))),
            },
        }
    }
}

/// The name that a job reports is composed, so that the rename it made is not taken up again; and
/// the name before it was one to rename.
pub proof fn law_reported_name_is_settled<E>(
    j: JobView<E>,
    reply: ReplyView<E>,
    from: Seq<char>,
    to: Seq<char>,
    has_parent: bool,
    process_id: u32,
)
    requires
        valid(j),
        expects(j.stage, reply),
        resumed(j, reply) == StepView::<E>::Finish(Ok(Some((from, to)))),
    ensures
        normalizer::nfc_of(to) == to,
        started::<E>(Some(to), normalizer::nfc_of(to), has_parent, process_id) == StepView::<
            E,
        >::Finish(Ok(None)),
        normalizer::nfc_of(from) != from,
        !normalizer::skipped(from),
{
    if j.target != j.composed {
        let i = choose|i: nat|
            1 <= i <= 1000 && j.target == #[trigger] normalizer::candidate_name(j.composed, i);
        normalizer::law_candidates_stay_composed(j.composed, i);
    }
}

/// A file that bears the temporary name is left alone.
pub proof fn law_temporary_name_is_hidden(process_id: u32)
    ensures
        normalizer::skipped(temp_name(process_id)),
{
    reveal_strlit(".nfc-tmp-");
}

/// A hidden or temporary file, and one whose name is composed, is never asked about.
pub proof fn law_settled_names_ask_nothing<E>(
    name: Seq<char>,
    has_parent: bool,
    process_id: u32,
)
    requires
        normalizer::skipped(name) || normalizer::nfc_of(name) == name,
    ensures
        started::<E>(Some(name), normalizer::nfc_of(name), has_parent, process_id) == StepView::<
            E,
        >::Finish(Ok(None)),
{
}

/// A job moves a file in one rename only to a name that was just found to be free.
pub proof fn law_moves_only_to_free_names<E>(
    j: JobView<E>,
    reply: ReplyView<E>,
    next: JobView<E>,
    request: RequestView,
)
    requires
        valid(j),
        expects(j.stage, reply),
        resumed(j, reply) == StepView::Ask(next, request),
        next.stage is Moving,
    ensures
        request == RequestView::Rename(j.place, PlaceView::Named(next.target)),
        reply == ReplyView::<E>::Exists(false),
        next.target == j.target,
{
}

/// The temporary name is used exactly for a file that the target already leads to.
pub proof fn law_parks_only_the_same_file<E>(
    j: JobView<E>,
    reply: ReplyView<E>,
    next: JobView<E>,
    request: RequestView,
)
    requires
        expects(j.stage, reply),
        resumed(j, reply) == StepView::Ask(next, request),
    ensures
        next.stage is Parking <==> j.stage is Comparing && reply == ReplyView::<E>::Same(
            Some(true),
        ),
        next.stage is Parking ==> request == RequestView::Rename(
            j.place,
            PlaceView::Named(j.temp),
        ),
{
}

/// Where the second of two renames fails, the file gets its old name back, and the failure is
/// reported whether or not that works.
pub proof fn law_failed_second_step_restores<E>(j: JobView<E>, e: E, last: ReplyView<E>)
    requires
        j.stage is Unparking,
        last is Renamed,
    ensures
        resumed(j, ReplyView::Renamed(Err(e))) matches StepView::Ask(next, request) && request
            == RequestView::Rename(PlaceView::Named(j.temp), j.place) && resumed(next, last)
            == StepView::<E>::Finish(Err(RenameError::Io(e))),
{
}

/// How far a job can still be from its end, listings aside.
pub open spec fn remaining<E>(j: JobView<E>) -> int {
    match j.stage {
        Stage::Probing => 1009,
        Stage::Locating => 1008,
        Stage::Comparing => 1007,
        Stage::CheckingTarget => 1006,
        Stage::Choosing => 1005 - j.attempt,
        Stage::Moving | Stage::Parking => 4,
        Stage::Unparking => 3,
        Stage::Restoring(_) => 2,
        Stage::Confirming => 1,
    }
}

/// Whatever the file system replies, a job comes closer to its end, or stays as it is and goes on
/// to the next entry of a listing.
pub proof fn law_jobs_make_progress<E>(
    j: JobView<E>,
    reply: ReplyView<E>,
    next: JobView<E>,
    request: RequestView,
)
    requires
        valid(j),
        expects(j.stage, reply),
        resumed(j, reply) == StepView::Ask(next, request),
    ensures
        0 <= remaining(next) < remaining(j) || (next == j && (request is NextStored
            || request is NextName)),
{
}

} // verus!
