//! All images of a run: how they are loaded, divided, worked on and collected.

use crate::client::TinifyClient;
use crate::image::ImageResult;
use crate::state::ApiState;
use std::path::PathBuf;
use vstd::prelude::*;

verus! {

/// How many images are worked on at the same time at most.
pub const MAX_CONCURRENCY: usize = 200;

/// An image file, with its contents where they were loaded beforehand.
pub struct ImageFile {
    pub path: PathBuf,
    pub data: Option<Vec<u8>>,
}

/// The image files of a run, loaded one after the other.
pub struct Preload {
    pub files: Vec<ImageFile>,
    /// How many could not be loaded.
    pub failed: usize,
}

/// How many files could not be loaded.
pub open spec fn unloaded(files: Seq<ImageFile>) -> nat
    decreases files.len(),
{
    if files.len() == 0 {
        0
    } else {
        unloaded(files.drop_last()) + (if files.last().data is None {
            1nat
        } else {
            0
        })
    }
}

proof fn lemma_unloaded_at_most_all(files: Seq<ImageFile>)
    ensures
        unloaded(files) <= files.len(),
    decreases files.len(),
{
    if files.len() > 0 {
        lemma_unloaded_at_most_all(files.drop_last());
    }
}

impl Preload {
    /// The count of failures is that of the files without contents.
    pub open spec fn wf(&self) -> bool {
        self.failed == unloaded(self.files@)
    }

    pub fn new() -> (preload: Preload)
        ensures
            preload.wf(),
            preload.files@ == Seq::<ImageFile>::empty(),
    {
        Preload { files: Vec::new(), failed: 0 }
    }

    /// Adds a file with its contents, or without where it could not be read.
    pub fn add(&mut self, path: PathBuf, data: Option<Vec<u8>>)
        requires
            old(self).wf(),
        ensures
            final(self).wf(),
            final(self).files@ == old(self).files@.push(ImageFile { path, data }),
    {
        let ghost before = self.files@;
        let unread = data.is_none();
        self.files.push(ImageFile { path, data });
        assert(self.files@.drop_last() =~= before);
        if unread {
            proof {
                lemma_unloaded_at_most_all(self.files@);
                assert(self.files.len() <= usize::MAX);
            }
            self.failed = self.failed + 1;
        }
    }
}

/// How a run goes about its images.
#[derive(Clone, Copy, Debug, PartialEq, Eq, Structural)]
pub struct Plan {
    /// How many images are worked on at the same time.
    pub concurrency: usize,
    /// How many images come first, to learn the credits of the keys.
    pub calibration: usize,
}

/// As many images at the same time as there are, up to the limit; and, unless that is switched
/// off or there are no more images than active keys, one image for each active key first.
pub open spec fn plan_for(images: nat, active: nat, no_calibration: bool) -> Plan {
    Plan {
        concurrency: if images < MAX_CONCURRENCY {
            images as usize
        } else {
            MAX_CONCURRENCY
        },
        calibration: if !no_calibration && images > active {
            active as usize
        } else {
            0
        },
    }
}

/// Plans a run.
pub fn plan(images: usize, active: usize, no_calibration: bool) -> (p: Plan)
    ensures
        p == plan_for(images as nat, active as nat, no_calibration),
{
    let concurrency = if images < MAX_CONCURRENCY {
        images
    } else {
        MAX_CONCURRENCY
    };
    let calibration = if !no_calibration && images > active {
        active
    } else {
        0
    };
    Plan { concurrency, calibration }
}

/// How far a run has come.
pub enum Batch {
    /// The first images are being worked on.
    Calibrating { remaining: Vec<ImageFile> },
    /// The state of the keys is being saved.
    Saving { results: Vec<ImageResult>, remaining: Vec<ImageFile> },
    /// The other images are being worked on.
    Processing { results: Vec<ImageResult> },
}

/// What is to be done next.
pub enum BatchAction {
    Process(Vec<ImageFile>),
    /// Save the state of the keys.
    Save,
}

/// What an action led to.
pub enum BatchEvent {
    Processed(Vec<ImageResult>),
    Saved,
    /// The state could not be saved.
    Unsaved,
}

/// Where a run stands after a step.
pub enum BatchStep {
    Do(Batch, BatchAction),
    Done(Vec<ImageResult>),
    Failed,
}

/// How a run starts.
pub open spec fn starts(files: Seq<ImageFile>, calibration: nat, step: BatchStep) -> bool {
    if 0 < calibration <= files.len() {
        &&& step matches BatchStep::Do(Batch::Calibrating { remaining }, BatchAction::Process(first))
        &&& first@ == files.take(calibration as int)
        &&& remaining@ == files.skip(calibration as int)
    } else {
        &&& step matches BatchStep::Do(Batch::Processing { results }, BatchAction::Process(all))
        &&& results@ == Seq::<ImageResult>::empty()
        &&& all@ == files
    }
}

/// An event that a run can take as it stands.
pub open spec fn admitted(batch: Batch, event: BatchEvent) -> bool {
    match (batch, event) {
        (Batch::Calibrating { .. }, BatchEvent::Processed(_)) => true,
        (Batch::Saving { .. }, BatchEvent::Saved) => true,
        (Batch::Saving { .. }, BatchEvent::Unsaved) => true,
        (Batch::Processing { .. }, BatchEvent::Processed(_)) => true,
        _ => false,
    }
}

/// What a step does: what comes next, and what the state of the keys becomes. When images were
/// worked on, the state takes over what the client has learned of the keys.
pub open spec fn steps(
    batch: Batch,
    event: BatchEvent,
    state: ApiState,
    client: TinifyClient,
    step: BatchStep,
    state_after: ApiState,
) -> bool {
    match (batch, event) {
        (Batch::Calibrating { remaining }, BatchEvent::Processed(done)) => {
            &&& step matches BatchStep::Do(Batch::Saving { results, remaining: left }, BatchAction::Save)
            &&& results@ == done@
            &&& left@ == remaining@
            &&& crate::state::learned(state, client, state_after)
        },
        (Batch::Saving { results, remaining }, BatchEvent::Saved) => {
            &&& step matches BatchStep::Do(Batch::Processing { results: so_far }, BatchAction::Process(
                rest,
            ))
            &&& so_far@ == results@
            &&& rest@ == remaining@
            &&& state_after == state
        },
        (Batch::Saving { .. }, BatchEvent::Unsaved) => {
            &&& step is Failed
            &&& state_after == state
        },
        (Batch::Processing { results }, BatchEvent::Processed(done)) => {
            &&& step matches BatchStep::Done(all)
            &&& all@ == results@ + done@
            &&& crate::state::learned(state, client, state_after)
        },
        _ => false,
    }
}

impl Batch {
    /// Starts a run, with so many images first.
    pub fn start(files: Vec<ImageFile>, calibration: usize) -> (step: BatchStep)
        ensures
            starts(files@, calibration as nat, step),
    {
        if calibration > 0 && calibration <= files.len() {
            let ghost all = files@;
            let mut first = files;
            let remaining = first.split_off(calibration);
            assert(remaining@ =~= all.skip(calibration as int));
            assert(first@ =~= all.take(calibration as int));
            BatchStep::Do(Batch::Calibrating { remaining }, BatchAction::Process(first))
        } else {
            BatchStep::Do(Batch::Processing { results: Vec::new() }, BatchAction::Process(files))
        }
    }

    /// Tells whether the run can take an event as it stands.
    pub fn admits(&self, event: &BatchEvent) -> (r: bool)
        ensures
            r == admitted(*self, *event),
    {
        match (self, event) {
            (Batch::Calibrating { .. }, BatchEvent::Processed(_)) => true,
            (Batch::Saving { .. }, BatchEvent::Saved) => true,
            (Batch::Saving { .. }, BatchEvent::Unsaved) => true,
            (Batch::Processing { .. }, BatchEvent::Processed(_)) => true,
            _ => false,
        }
    }

    /// Takes what the last action led to. The state of the keys takes over what the client has
    /// learned, whenever images were worked on.
    pub fn step(
        self,
        event: BatchEvent,
        api_state: &mut ApiState,
        client: &TinifyClient,
    ) -> (step: BatchStep)
        requires
            admitted(self, event),
        ensures
            steps(self, event, *old(api_state), *client, step, *final(api_state)),
    {
        match (self, event) {
            (Batch::Calibrating { remaining }, BatchEvent::Processed(results)) => {
                api_state.learn(client);
                BatchStep::Do(Batch::Saving { results, remaining }, BatchAction::Save)
            },
            (Batch::Saving { results, remaining }, BatchEvent::Saved) => BatchStep::Do(
                Batch::Processing { results },
                BatchAction::Process(remaining),
            ),
            (Batch::Saving { .. }, BatchEvent::Unsaved) => BatchStep::Failed,
            (Batch::Processing { results }, BatchEvent::Processed(done)) => {
                let mut all = results;
                let mut done = done;
                all.append(&mut done);
                api_state.learn(client);
                BatchStep::Done(all)
            },
            _ => vstd::pervasive::unreached(),
        }
    }
}

/// What came of the work on one image.
pub enum TaskOutcome {
    Finished(ImageResult),
    /// It came to no result; why.
    Errored(String),
    /// It was broken off; why.
    Crashed(String),
}

/// The results among the outcomes, in their order.
pub open spec fn results_in(outcomes: Seq<TaskOutcome>) -> Seq<ImageResult>
    decreases outcomes.len(),
{
    if outcomes.len() == 0 {
        seq![]
    } else {
        let before = results_in(outcomes.drop_last());
        match outcomes.last() {
            TaskOutcome::Finished(r) => before.push(r),
            _ => before,
        }
    }
}

/// What is said of the outcomes without a result, in their order.
pub open spec fn complaints_in(outcomes: Seq<TaskOutcome>) -> Seq<Seq<char>>
    decreases outcomes.len(),
{
    if outcomes.len() == 0 {
        seq![]
    } else {
        let before = complaints_in(outcomes.drop_last());
        match outcomes.last() {
            TaskOutcome::Finished(_) => before,
            TaskOutcome::Errored(e) => before.push("处理错误: "@ + e@),
            TaskOutcome::Crashed(e) => before.push("任务执行错误: "@ + e@),
        }
    }
}

/// The results of the work on some images, and what is to be said of the rest.
pub struct Collected {
    pub results: Vec<ImageResult>,
    pub complaints: Vec<String>,
}

/// Collects what came of the work on some images.
pub fn collect(outcomes: Vec<TaskOutcome>) -> (collected: Collected)
    ensures
        collected.results@ == results_in(outcomes@),
        collected.complaints@.map_values(|c: String| c@) == complaints_in(outcomes@),
{
    let ghost all = outcomes@;
    let mut results: Vec<ImageResult> = Vec::new();
    let mut complaints: Vec<String> = Vec::new();
    assert(all.take(0) =~= Seq::<TaskOutcome>::empty());
    assert(complaints@.map_values(|c: String| c@) =~= complaints_in(all.take(0)));
    for outcome in it: outcomes
        invariant
            it.seq() == all,
            results@ == results_in(all.take(it.index())),
            complaints@.map_values(|c: String| c@) == complaints_in(all.take(it.index())),
    {
        let ghost n = it.index();
        assert(all.take(n + 1).drop_last() =~= all.take(n));
        assert(all.take(n + 1).last() == outcome);
        let ghost before = complaints@;
        match outcome {
            TaskOutcome::Finished(r) => {
                results.push(r);
            },
            TaskOutcome::Errored(e) => {
                let mut complaint = "处理错误: ".to_owned();
                complaint.append(e.as_str());
                complaints.push(complaint);
                assert(complaints@.map_values(|c: String| c@) =~= before.map_values(
                    |c: String| c@,
                ).push("处理错误: "@ + e@));
            },
            TaskOutcome::Crashed(e) => {
                let mut complaint = "任务执行错误: ".to_owned();
                complaint.append(e.as_str());
                complaints.push(complaint);
                assert(complaints@.map_values(|c: String| c@) =~= before.map_values(
                    |c: String| c@,
                ).push("任务执行错误: "@ + e@));
            },
        }
    }
    assert(all.take(all.len() as int) =~= all);
    Collected { results, complaints }
}

/// Nothing gets lost: there is a result or a complaint for each outcome.
pub proof fn law_nothing_gets_lost(outcomes: Seq<TaskOutcome>)
    ensures
        results_in(outcomes).len() + complaints_in(outcomes).len() == outcomes.len(),
    decreases outcomes.len(),
{
    if outcomes.len() > 0 {
        law_nothing_gets_lost(outcomes.drop_last());
    }
}

/// Every image is worked on once: those that come first and those that remain are all images, in
/// their order, and a plan never has more images first than there are.
pub proof fn law_every_image_once(
    files: Seq<ImageFile>,
    active: nat,
    no_calibration: bool,
    step: BatchStep,
)
    requires
        starts(files, plan_for(files.len(), active, no_calibration).calibration as nat, step),
        files.len() <= usize::MAX,
    ensures
        step matches BatchStep::Do(batch, BatchAction::Process(first)) && first@ + (match batch {
            Batch::Calibrating { remaining } => remaining@,
            _ => Seq::<ImageFile>::empty(),
        }) == files,
        plan_for(files.len(), active, no_calibration).calibration <= files.len(),
        plan_for(files.len(), active, no_calibration).concurrency <= MAX_CONCURRENCY,
        step matches BatchStep::Do(Batch::Calibrating { .. }, BatchAction::Process(first)) ==> first@.len()
            == active && !no_calibration,
{
    if let BatchStep::Do(batch, BatchAction::Process(first)) = step {
        match batch {
            Batch::Calibrating { remaining } => {
                assert(first@ + remaining@ =~= files);
            },
            _ => {
                assert(first@ + Seq::<ImageFile>::empty() =~= files);
            },
        }
    }
}

/// A run with a calibration works on its first images, saves the state, works on the images that
/// remain, and gives all results in the order of the images. What it saves, and what it leaves at
/// its end, has the credits that the client knew of at that time.
pub proof fn law_run_gives_all_results(
    remaining: Vec<ImageFile>,
    first: Vec<ImageResult>,
    rest: Vec<ImageResult>,
    state: ApiState,
    client: TinifyClient,
    saving: Batch,
    save: BatchAction,
    saved: ApiState,
    processing: Batch,
    process: BatchAction,
    kept: ApiState,
    later_client: TinifyClient,
    end: BatchStep,
    left: ApiState,
)
    requires
        steps(
            Batch::Calibrating { remaining },
            BatchEvent::Processed(first),
            state,
            client,
            BatchStep::Do(saving, save),
            saved,
        ),
        steps(
            saving,
            BatchEvent::Saved,
            saved,
            later_client,
            BatchStep::Do(processing, process),
            kept,
        ),
        steps(processing, BatchEvent::Processed(rest), kept, later_client, end, left),
    ensures
        save is Save,
        saved.key_statuses@ == client.state.key_statuses@,
        process matches BatchAction::Process(files) && files@ == remaining@,
        end matches BatchStep::Done(all) && all@ == first@ + rest@,
        left.key_statuses@ == later_client.state.key_statuses@,
        left.metadata == state.metadata,
{
}

/// What the service says of a key is what is saved: after a successful reply for a listed key, and
/// steps of any compressions among which none is another reply for that key, the state that a run
/// takes over has what the reported count leaves of the month's credits. That state is the one
/// that is saved after a calibration.
pub proof fn law_learned_credits_are_saved(
    c: crate::compress::Compression,
    reply: crate::compress::Reply,
    client: TinifyClient,
    entries: Seq<(Seq<char>, Seq<u8>, u64)>,
    now: u64,
    step: crate::compress::Step,
    entries_after: Seq<(Seq<char>, Seq<u8>, u64)>,
    history: Seq<TinifyClient>,
    batch: Batch,
    done: Vec<ImageResult>,
    state: ApiState,
    batch_step: BatchStep,
    state_after: ApiState,
)
    requires
        c.phase is Sending,
        200 <= reply.status < 300,
        client.state.key_statuses@.dom().contains(c.phase->Sending_key@),
        history.len() > 0,
        crate::compress::steps(
            c,
            crate::compress::Event::Replied(reply),
            client,
            entries,
            now,
            step,
            history[0],
            entries_after,
        ),
        crate::compress::is_quiet(history, c.phase->Sending_key@),
        steps(
            batch,
            BatchEvent::Processed(done),
            state,
            history.last(),
            batch_step,
            state_after,
        ),
    ensures
        state_after.key_statuses@.dom().contains(c.phase->Sending_key@),
        state_after.key_statuses@[c.phase->Sending_key@] == crate::compress::credits_left(
            crate::compress::count_in(reply.compression_count),
        ),
        batch is Calibrating ==> (batch_step matches BatchStep::Do(_, action) && action is Save),
{
    let key = c.phase->Sending_key@;
    crate::compress::law_reply_sets_credits(
        c,
        crate::compress::Event::Replied(reply),
        client,
        entries,
        now,
        step,
        history[0],
        entries_after,
        key,
    );
    crate::compress::law_quiet_history_keeps_credit(history, key);
}

/// A run ends with exactly the listed keys: where the client began with a state that took over its
/// list of keys, and compressions sent keys of that list only, the client's state and the state
/// that the run takes over from it have the keys of the list and no others.
pub proof fn law_run_keeps_the_listed_keys(
    credits: Map<Seq<char>, u32>,
    keys: Seq<String>,
    history: Seq<TinifyClient>,
    batch: Batch,
    done: Vec<ImageResult>,
    state: ApiState,
    step: BatchStep,
    state_after: ApiState,
)
    requires
        history.len() > 0,
        history[0].state.key_statuses@ == crate::state::credits_for(
            credits,
            crate::state::key_set(keys),
        ),
        crate::compress::is_within(history, crate::state::key_set(keys)),
        steps(batch, BatchEvent::Processed(done), state, history.last(), step, state_after),
    ensures
        history.last().state.key_statuses@.dom() == crate::state::key_set(keys),
        state_after.key_statuses@.dom() == crate::state::key_set(keys),
{
    assert(history[0].state.key_statuses@.dom() =~= crate::state::key_set(keys));
    crate::compress::law_history_keeps_listed_keys(history);
}

/// As many files count as not loaded as have no contents.
pub proof fn law_unloaded_files_are_counted(files: Seq<ImageFile>)
    ensures
        unloaded(files) == files.filter(|f: ImageFile| f.data is None).len(),
    decreases files.len(),
{
    reveal(Seq::filter);
    if files.len() > 0 {
        let rest = files.drop_last();
        law_unloaded_files_are_counted(rest);
        rest.lemma_filter_push(files.last(), |f: ImageFile| f.data is None);
        assert(rest.push(files.last()) =~= files);
    }
}

/// A plan is for all images at the same time, but for 200 at most. There is one image first for
/// each active key exactly if calibration is on and there are more images than active keys.
pub proof fn law_plan_of_a_run(images: usize, active: usize, no_calibration: bool)
    ensures
        ({
            let plan = plan_for(images as nat, active as nat, no_calibration);
            &&& images <= 200 ==> plan.concurrency == images
            &&& images > 200 ==> plan.concurrency == 200
            &&& !no_calibration && active < images ==> plan.calibration == active
            &&& no_calibration || images <= active ==> plan.calibration == 0
        }),
{
}

/// A run starts with as many of its first images as were asked for, the others remaining; or, where
/// none were or there are not so many, with all of them.
pub proof fn law_run_starts_with_the_first_images(
    files: Seq<ImageFile>,
    calibration: nat,
    step: BatchStep,
)
    requires
        starts(files, calibration, step),
    ensures
        0 < calibration <= files.len() ==> {
            &&& step matches BatchStep::Do(Batch::Calibrating { remaining }, BatchAction::Process(
                first,
            ))
            &&& first@.len() == calibration
            &&& first@ + remaining@ == files
        },
        calibration == 0 || calibration > files.len() ==> {
            &&& step matches BatchStep::Do(Batch::Processing { results }, BatchAction::Process(all))
            &&& results@.len() == 0
            &&& all@ == files
        },
{
    if let BatchStep::Do(Batch::Calibrating { remaining }, BatchAction::Process(first)) = step {
        assert(first@ + remaining@ =~= files);
    }
}

/// The last images end a run, with their results behind those that were there; the state then has
/// the credits of the client, and nothing else of it changes.
pub proof fn law_last_images_end_the_run(
    results: Vec<ImageResult>,
    done: Vec<ImageResult>,
    state: ApiState,
    client: TinifyClient,
    step: BatchStep,
    state_after: ApiState,
)
    requires
        steps(
            Batch::Processing { results },
            BatchEvent::Processed(done),
            state,
            client,
            step,
            state_after,
        ),
    ensures
        step matches BatchStep::Done(all) && all@ == results@ + done@,
        state_after.key_statuses@ == client.state.key_statuses@,
        state_after.metadata == state.metadata,
{
}

/// A state that could not be saved ends the run without results, and stays as it is.
pub proof fn law_unsaved_state_ends_the_run(
    results: Vec<ImageResult>,
    remaining: Vec<ImageFile>,
    state: ApiState,
    client: TinifyClient,
    step: BatchStep,
    state_after: ApiState,
)
    requires
        steps(
            Batch::Saving { results, remaining },
            BatchEvent::Unsaved,
            state,
            client,
            step,
            state_after,
        ),
    ensures
        step is Failed,
        state_after == state,
{
}

/// Work on images can end with any results, and a save can succeed or not; nothing else happens.
pub proof fn law_events_of_a_run(batch: Batch, event: BatchEvent)
    ensures
        admitted(batch, event) <==> (if batch is Saving {
            event is Saved || event is Unsaved
        } else {
            event is Processed
        }),
{
}

/// One more outcome is one more result, behind the others, if the work came to one, and one more
/// complaint that gives the reason if it did not.
pub proof fn law_each_outcome_counts(
    outcomes: Seq<TaskOutcome>,
    r: ImageResult,
    why: String,
)
    ensures
        results_in(seq![]) == Seq::<ImageResult>::empty(),
        complaints_in(seq![]) == Seq::<Seq<char>>::empty(),
        results_in(outcomes.push(TaskOutcome::Finished(r))) == results_in(outcomes).push(r),
        complaints_in(outcomes.push(TaskOutcome::Finished(r))) == complaints_in(outcomes),
        results_in(outcomes.push(TaskOutcome::Errored(why))) == results_in(outcomes),
        complaints_in(outcomes.push(TaskOutcome::Errored(why))) == complaints_in(outcomes).push(
            "处理错误: "@ + why@,
        ),
        results_in(outcomes.push(TaskOutcome::Crashed(why))) == results_in(outcomes),
        complaints_in(outcomes.push(TaskOutcome::Crashed(why))) == complaints_in(outcomes).push(
            "任务执行错误: "@ + why@,
        ),
{
    assert(outcomes.push(TaskOutcome::Finished(r)).drop_last() =~= outcomes);
    assert(outcomes.push(TaskOutcome::Errored(why)).drop_last() =~= outcomes);
    assert(outcomes.push(TaskOutcome::Crashed(why)).drop_last() =~= outcomes);
}

/// What is planned: all images at the same time but 200 at most, and one image for each active key
/// first, if calibration is on and there are more images than that.
pub proof fn law_what_is_planned(images: usize, active: usize, no_calibration: bool, p: Plan)
    requires
        call_ensures(plan, (images, active, no_calibration), p),
    ensures
        images <= 200 ==> p.concurrency == images,
        images > 200 ==> p.concurrency == 200,
        !no_calibration && active < images ==> p.calibration == active,
        no_calibration || images <= active ==> p.calibration == 0,
{
}

/// A run that starts hands out its first images, or all, and keeps those that remain.
pub proof fn law_what_a_run_starts_with(
    files: Vec<ImageFile>,
    calibration: usize,
    step: BatchStep,
)
    requires
        call_ensures(Batch::start, (files, calibration), step),
    ensures
        step matches BatchStep::Do(batch, BatchAction::Process(first)) && {
            &&& 0 < calibration <= files@.len() ==> first@.len() == calibration && (
            batch matches Batch::Calibrating { remaining } && first@ + remaining@ == files@)
            &&& calibration == 0 || calibration > files@.len() ==> first@ == files@ && (
            batch matches Batch::Processing { results } && results@.len() == 0)
        },
{
    law_run_starts_with_the_first_images(files@, calibration as nat, step);
}

/// With the outcome of one more image, what is collected grows by its result or by a complaint that
/// gives the reason, and by nothing else.
pub proof fn law_what_is_collected(
    outcomes: Vec<TaskOutcome>,
    outcome: TaskOutcome,
    more: Vec<TaskOutcome>,
    before: Collected,
    after: Collected,
)
    requires
        call_ensures(collect, (outcomes,), before),
        call_ensures(collect, (more,), after),
        more@ == outcomes@.push(outcome),
    ensures
        outcome matches TaskOutcome::Finished(r) ==> after.results@ == before.results@.push(r)
            && after.complaints@.len() == before.complaints@.len(),
        outcome matches TaskOutcome::Errored(why) ==> after.results@ == before.results@
            && after.complaints@.len() == before.complaints@.len() + 1 && after.complaints@.last()@
            == "处理错误: "@ + why@,
        outcome matches TaskOutcome::Crashed(why) ==> after.results@ == before.results@
            && after.complaints@.len() == before.complaints@.len() + 1 && after.complaints@.last()@
            == "任务执行错误: "@ + why@,
{
    assert(more@.drop_last() =~= outcomes@);
    let a = before.complaints@.map_values(|c: String| c@);
    let b = after.complaints@.map_values(|c: String| c@);
    assert(a.len() == before.complaints@.len());
    assert(b.len() == after.complaints@.len());
    if b.len() > 0 {
        assert(b[b.len() - 1] == after.complaints@[b.len() - 1]@);
    }
}

} // verus!
