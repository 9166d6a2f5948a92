//! The work on one item, step by step, and the tally of a batch of items.

use vstd::prelude::*;
use vstd::string::StringExecFns;
use super::options::no_artifacts;
use super::options::ArtifactSet;
use super::options::DownloadError;
use super::request_kind::resolved;
use super::request_kind::resolved_kind;
use super::request_kind::Grant;
use super::request_kind::Quality;
use crate::lists::holds_text;
use crate::tables::cells;
use crate::tables::push_row;
use crate::tables::row3;
use crate::tables::rows_in_order;
use crate::tables::sort_rows;
use crate::text::cat5;
use crate::text::decimal;
use crate::text::number;
use crate::text::opt_text;
use crate::text::same;
use crate::text::texts;
use crate::text_map::pairs_of;

verus! {

/// What the records say of an item.
#[derive(Debug)]
pub struct Recorded {
    /// The request kinds of its audio.
    pub request_kinds: Vec<String>,
    /// Whether a PDF is recorded.
    pub pdf: bool,
}

/// Whether one of the recorded kinds is one that the request can resolve to.
pub open spec fn audio_recorded(recorded: Seq<Seq<char>>, candidates: Seq<Seq<char>>) -> bool {
    exists|i: int| 0 <= i < recorded.len() && candidates.contains(#[trigger] recorded[i])
}

/// The artifacts that are still to be fetched: the audio unless a kind that the
/// request can resolve to is recorded, the PDF unless one is. Covers and
/// chapters come in variants, and are decided one by one.
pub open spec fn not_recorded(
    targets: ArtifactSet,
    recorded: Recorded,
    candidates: Seq<Seq<char>>,
) -> ArtifactSet {
    ArtifactSet {
        audio: targets.audio && !audio_recorded(texts(recorded.request_kinds@), candidates),
        pdf: targets.pdf && !recorded.pdf,
        ..targets
    }
}

/// Drops the artifacts that are recorded: the record counts, whether or not the
/// file is still there.
pub fn skip_already_downloaded(
    targets: ArtifactSet,
    recorded: &Recorded,
    candidates: &Vec<String>,
) -> (left: ArtifactSet)
    ensures
        left == not_recorded(targets, *recorded, texts(candidates@)),
{
    let mut found = false;
    let mut i: usize = 0;
    while i < recorded.request_kinds.len()
        invariant
            i <= recorded.request_kinds@.len(),
            found == exists|k: int|
                0 <= k < i && texts(candidates@).contains(
                    #[trigger] texts(recorded.request_kinds@)[k],
                ),
        decreases recorded.request_kinds.len() - i,
    {
        assert(texts(recorded.request_kinds@)[i as int] == recorded.request_kinds@[i as int]@);
        if holds_text(candidates, recorded.request_kinds[i].as_str()) {
            found = true;
        }
        i = i + 1;
    }
    ArtifactSet {
        audio: targets.audio && !found,
        chapter: targets.chapter,
        pdf: targets.pdf && !recorded.pdf,
        cover: targets.cover,
    }
}

/// How one item is worked on.
#[derive(Clone, Copy, Debug, PartialEq, Eq, Structural)]
pub struct ItemPlan {
    /// The artifacts that are asked for.
    pub targets: ArtifactSet,
    /// The quality that is asked for.
    pub quality: Quality,
    /// Whether a stored license is passed over.
    pub relicense: bool,
    /// Whether records are passed over.
    pub force: bool,
    /// Whether the run leaves no trace in the database.
    pub no_db_write: bool,
    /// Whether the audio is decrypted.
    pub decrypt: bool,
    /// Whether the audio goes the Widevine way in any case.
    pub widevine: bool,
    /// Whether a Widevine device is there.
    pub cdm: bool,
}

/// Where the work on an item stands.
#[derive(Clone, Copy, Debug, PartialEq, Eq, Structural)]
pub enum Stage {
    /// A stored license is looked for.
    Reuse,
    /// A license is asked for.
    License,
    /// The audio is fetched.
    Audio,
    /// The chapters are written.
    Chapter,
    /// The PDF is fetched.
    Pdf,
    /// The covers are fetched.
    Cover,
    /// The audio is decrypted.
    Decrypt,
    /// All is done.
    Done,
    /// The work was given up.
    Failed,
}

/// What is to be done next.
#[derive(Clone, Copy, Debug, PartialEq, Eq, Structural)]
pub enum Step {
    /// Look for a stored license that still serves.
    FindLicense,
    /// Ask for a license.
    AskLicense,
    /// Fetch the audio under the license.
    FetchAudio,
    /// Fetch the audio the Widevine way.
    FetchWidevine,
    /// Write the chapters.
    WriteChapters,
    /// Fetch the PDF.
    FetchPdf,
    /// Fetch the covers.
    FetchCovers,
    /// Decrypt the audio.
    Decrypt,
    /// Nothing: the item is done.
    Finish,
    /// Give up: the title is for streaming only and there is no Widevine
    /// device.
    NeedsCdm,
    /// Give up: the last step failed.
    GiveUp,
}

/// What came of a step.
#[derive(Debug)]
pub enum Event {
    /// The search for a stored license: the license, by what it grants.
    Found(Option<Grant>),
    /// A license was granted.
    Granted(Grant),
    /// There is no asset in the portable format.
    NoAaxcAsset,
    /// Files of the step's kind were written.
    Paths(Vec<String>),
    /// Files were written, each of its kind.
    Files(Vec<(String, String)>),
    /// The audio was decrypted: the file, and whether it takes the place of the
    /// audio. Nothing where there was nothing to decrypt.
    Decrypted(Option<((String, String), bool)>),
    /// The step failed.
    Failed,
}

/// What came of a step, in texts.
pub enum EventView {
    /// The search for a stored license.
    Found(Option<Grant>),
    /// A license was granted.
    Granted(Grant),
    /// There is no asset in the portable format.
    NoAaxcAsset,
    /// Files of the step's kind were written.
    Paths(Seq<Seq<char>>),
    /// Files were written, each of its kind.
    Files(Seq<(Seq<char>, Seq<char>)>),
    /// The audio was decrypted.
    Decrypted(Option<((Seq<char>, Seq<char>), bool)>),
    /// The step failed.
    Failed,
}

impl View for Event {
    type V = EventView;

    open spec fn view(&self) -> EventView {
        match *self {
            Event::Found(grant) => EventView::Found(grant),
            Event::Granted(grant) => EventView::Granted(grant),
            Event::NoAaxcAsset => EventView::NoAaxcAsset,
            Event::Paths(paths) => EventView::Paths(texts(paths@)),
            Event::Files(files) => EventView::Files(pairs_of(files@)),
            Event::Decrypted(None) => EventView::Decrypted(None),
            Event::Decrypted(Some((entry, superseded))) => EventView::Decrypted(
                Some(((entry.0@, entry.1@), superseded)),
            ),
            Event::Failed => EventView::Failed,
        }
    }
}

/// The work on one item.
#[derive(Debug)]
pub struct ItemJob {
    /// How it is worked on.
    pub plan: ItemPlan,
    /// The artifacts that are still to be fetched.
    pub targets: ArtifactSet,
    /// Where it stands.
    pub stage: Stage,
    /// What the license grants.
    pub grant: Option<Grant>,
    /// Whether the audio goes the Widevine way.
    pub widevine_audio: bool,
    /// The file of the audio that this run wrote.
    pub audio_path: Option<String>,
    /// The files that were written, by kind.
    pub written: Vec<(String, String)>,
}

/// The work on one item, in texts.
pub struct JobView {
    /// How it is worked on.
    pub plan: ItemPlan,
    /// The artifacts that are still to be fetched.
    pub targets: ArtifactSet,
    /// Where it stands.
    pub stage: Stage,
    /// What the license grants.
    pub grant: Option<Grant>,
    /// Whether the audio goes the Widevine way.
    pub widevine_audio: bool,
    /// The file of the audio that this run wrote.
    pub audio_path: Option<Seq<char>>,
    /// The files that were written, by kind.
    pub written: Seq<(Seq<char>, Seq<char>)>,
}

impl View for ItemJob {
    type V = JobView;

    open spec fn view(&self) -> JobView {
        JobView {
            plan: self.plan,
            targets: self.targets,
            stage: self.stage,
            grant: self.grant,
            widevine_audio: self.widevine_audio,
            audio_path: opt_text(self.audio_path),
            written: pairs_of(self.written@),
        }
    }
}

/// How many stages are ahead.
pub open spec fn ahead(stage: Stage) -> nat {
    match stage {
        Stage::Reuse => 8,
        Stage::License => 7,
        Stage::Audio => 6,
        Stage::Chapter => 5,
        Stage::Pdf => 4,
        Stage::Cover => 3,
        Stage::Decrypt => 2,
        Stage::Done => 1,
        Stage::Failed => 0,
    }
}

/// The first stage from `stage` on that has something to do, and what that is.
pub open spec fn settled(
    plan: ItemPlan,
    targets: ArtifactSet,
    granted: bool,
    widevine_audio: bool,
    stage: Stage,
) -> (Stage, Step)
    decreases ahead(stage),
{
    match stage {
        Stage::Reuse => if plan.relicense || targets == no_artifacts() {
            settled(plan, targets, granted, widevine_audio, Stage::License)
        } else {
            (stage, Step::FindLicense)
        },
        Stage::License => if !granted && targets.audio && !widevine_audio {
            (stage, Step::AskLicense)
        } else {
            settled(plan, targets, granted, widevine_audio, Stage::Audio)
        },
        Stage::Audio => if !targets.audio {
            settled(plan, targets, granted, widevine_audio, Stage::Chapter)
        } else if !widevine_audio {
            (stage, Step::FetchAudio)
        } else if plan.cdm {
            (stage, Step::FetchWidevine)
        } else {
            (Stage::Failed, Step::NeedsCdm)
        },
        Stage::Chapter => if targets.chapter {
            (stage, Step::WriteChapters)
        } else {
            settled(plan, targets, granted, widevine_audio, Stage::Pdf)
        },
        Stage::Pdf => if targets.pdf {
            (stage, Step::FetchPdf)
        } else {
            settled(plan, targets, granted, widevine_audio, Stage::Cover)
        },
        Stage::Cover => if targets.cover {
            (stage, Step::FetchCovers)
        } else {
            settled(plan, targets, granted, widevine_audio, Stage::Decrypt)
        },
        Stage::Decrypt => if plan.decrypt && !widevine_audio {
            (stage, Step::Decrypt)
        } else {
            (Stage::Done, Step::Finish)
        },
        Stage::Done => (stage, Step::Finish),
        Stage::Failed => (stage, Step::GiveUp),
    }
}

/// The job at the first stage from here on that has something to do, and what
/// that is.
pub open spec fn settle(job: JobView) -> (JobView, Step) {
    let (stage, step) = settled(
        job.plan,
        job.targets,
        job.grant is Some,
        job.widevine_audio,
        job.stage,
    );
    (JobView { stage, ..job }, step)
}

fn settle_stage(
    plan: &ItemPlan,
    targets: &ArtifactSet,
    granted: bool,
    widevine_audio: bool,
    stage: Stage,
) -> (result: (Stage, Step))
    ensures
        result == settled(*plan, *targets, granted, widevine_audio, stage),
    decreases ahead(stage),
{
    match stage {
        Stage::Reuse => {
            let empty = !targets.audio && !targets.chapter && !targets.pdf && !targets.cover;
            if plan.relicense || empty {
                settle_stage(plan, targets, granted, widevine_audio, Stage::License)
            } else {
                (stage, Step::FindLicense)
            }
        },
        Stage::License => if !granted && targets.audio && !widevine_audio {
            (stage, Step::AskLicense)
        } else {
            settle_stage(plan, targets, granted, widevine_audio, Stage::Audio)
        },
        Stage::Audio => if !targets.audio {
            settle_stage(plan, targets, granted, widevine_audio, Stage::Chapter)
        } else if !widevine_audio {
            (stage, Step::FetchAudio)
        } else if plan.cdm {
            (stage, Step::FetchWidevine)
        } else {
            (Stage::Failed, Step::NeedsCdm)
        },
        Stage::Chapter => if targets.chapter {
            (stage, Step::WriteChapters)
        } else {
            settle_stage(plan, targets, granted, widevine_audio, Stage::Pdf)
        },
        Stage::Pdf => if targets.pdf {
            (stage, Step::FetchPdf)
        } else {
            settle_stage(plan, targets, granted, widevine_audio, Stage::Cover)
        },
        Stage::Cover => if targets.cover {
            (stage, Step::FetchCovers)
        } else {
            settle_stage(plan, targets, granted, widevine_audio, Stage::Decrypt)
        },
        Stage::Decrypt => if plan.decrypt && !widevine_audio {
            (stage, Step::Decrypt)
        } else {
            (Stage::Done, Step::Finish)
        },
        Stage::Done => (stage, Step::Finish),
        Stage::Failed => (stage, Step::GiveUp),
    }
}

/// Each path as a file of a kind.
pub open spec fn files_of(kind: Seq<char>, paths: Seq<Seq<char>>) -> Seq<(Seq<char>, Seq<char>)> {
    paths.map_values(|path: Seq<char>| (kind, path))
}

/// The files without those of a kind.
pub open spec fn without_kind(files: Seq<(Seq<char>, Seq<char>)>, kind: Seq<char>) -> Seq<
    (Seq<char>, Seq<char>),
>
    decreases files.len(),
{
    if files.len() == 0 {
        Seq::empty()
    } else if files.last().0 == kind {
        without_kind(files.drop_last(), kind)
    } else {
        without_kind(files.drop_last(), kind).push(files.last())
    }
}

/// The job after what came of its step; an event that does not answer the step
/// gives the job up.
pub open spec fn after(job: JobView, event: EventView) -> JobView {
    match (job.stage, event) {
        (Stage::Reuse, EventView::Found(grant)) => JobView { stage: Stage::License, grant, ..job },
        (Stage::License, EventView::Granted(grant)) => JobView {
            stage: Stage::Audio,
            grant: Some(grant),
            ..job
        },
        (Stage::License, EventView::NoAaxcAsset) => JobView {
            stage: Stage::Audio,
            widevine_audio: true,
            ..job
        },
        (Stage::Audio, EventView::Paths(paths)) => JobView {
            stage: Stage::Chapter,
            audio_path: if paths.len() > 0 {
                Some(paths[0])
            } else {
                None
            },
            written: job.written + files_of("audio"@, paths),
            ..job
        },
        (Stage::Audio, EventView::Files(files)) => JobView {
            stage: Stage::Chapter,
            written: job.written + files,
            ..job
        },
        (Stage::Chapter, EventView::Paths(paths)) => JobView {
            stage: Stage::Pdf,
            written: job.written + files_of("chapter"@, paths),
            ..job
        },
        (Stage::Pdf, EventView::Paths(paths)) => JobView {
            stage: Stage::Cover,
            written: job.written + files_of("pdf"@, paths),
            ..job
        },
        (Stage::Cover, EventView::Paths(paths)) => JobView {
            stage: Stage::Decrypt,
            written: job.written + files_of("cover"@, paths),
            ..job
        },
        (Stage::Decrypt, EventView::Decrypted(None)) => JobView { stage: Stage::Done, ..job },
        (Stage::Decrypt, EventView::Decrypted(Some((entry, superseded)))) => JobView {
            stage: Stage::Done,
            written: (if superseded {
                without_kind(job.written, "audio"@)
            } else {
                job.written
            }).push(entry),
            ..job
        },
        _ => JobView { stage: Stage::Failed, ..job },
    }
}

/// The job before anything was done: records count unless they are passed over,
/// and with nothing left to fetch and nothing to decrypt it is done at once.
pub open spec fn begun(
    plan: ItemPlan,
    recorded: Option<Recorded>,
    candidates: Seq<Seq<char>>,
) -> JobView {
    let heeded = !plan.force && !plan.no_db_write;
    let targets = match recorded {
        Some(r) => if heeded {
            not_recorded(plan.targets, r, candidates)
        } else {
            plan.targets
        },
        None => plan.targets,
    };
    JobView {
        plan,
        targets,
        stage: if heeded && targets == no_artifacts() && !plan.decrypt {
            Stage::Done
        } else {
            Stage::Reuse
        },
        grant: None,
        widevine_audio: plan.widevine,
        audio_path: None,
        written: Seq::empty(),
    }
}

fn add_files(written: &mut Vec<(String, String)>, kind: &str, paths: Vec<String>)
    ensures
        pairs_of(final(written)@) == pairs_of(old(written)@) + files_of(kind@, texts(paths@)),
{
    let ghost before = pairs_of(written@);
    let ghost more = files_of(kind@, texts(paths@));
    let mut i: usize = 0;
    assert(before + more.subrange(0, 0) =~= before);
    while i < paths.len()
        invariant
            i <= paths@.len(),
            more == files_of(kind@, texts(paths@)),
            pairs_of(written@) == before + more.subrange(0, i as int),
        decreases paths.len() - i,
    {
        let ghost now = pairs_of(written@);
        written.push((String::from_str(kind), paths[i].clone()));
        assert(pairs_of(written@) =~= now.push((kind@, paths@[i as int]@)));
        assert(more.subrange(0, i + 1) =~= more.subrange(0, i as int).push(more[i as int]));
        assert(pairs_of(written@) =~= before + more.subrange(0, i + 1));
        i = i + 1;
    }
    assert(more.subrange(0, i as int) =~= more);
}

fn drop_kind(written: &Vec<(String, String)>, kind: &str) -> (left: Vec<(String, String)>)
    ensures
        pairs_of(left@) == without_kind(pairs_of(written@), kind@),
{
    let ghost all = pairs_of(written@);
    let mut left: Vec<(String, String)> = Vec::new();
    let mut i: usize = 0;
    assert(pairs_of(left@) =~= without_kind(all.subrange(0, 0), kind@));
    while i < written.len()
        invariant
            i <= written@.len(),
            all == pairs_of(written@),
            pairs_of(left@) == without_kind(all.subrange(0, i as int), kind@),
        decreases written.len() - i,
    {
        let ghost now = pairs_of(left@);
        assert(all.subrange(0, i + 1).drop_last() =~= all.subrange(0, i as int));
        if !same(written[i].0.as_str(), kind) {
            left.push((written[i].0.clone(), written[i].1.clone()));
            assert(pairs_of(left@) =~= now.push(all[i as int]));
        }
        i = i + 1;
    }
    assert(all.subrange(0, i as int) =~= all);
    left
}

/// The kind under which the audio of a license is recorded; none without a license.
pub open spec fn recorded_kind(grant: Option<Grant>, quality: Quality) -> Option<Seq<char>> {
    match grant {
        Some(found) => Some(resolved_kind(found, false, quality)),
        None => None,
    }
}

impl ItemJob {
    fn settle_now(&mut self) -> (step: Step)
        ensures
            (final(self)@, step) == settle(old(self)@),
    {
        let (stage, step) = settle_stage(
            &self.plan,
            &self.targets,
            self.grant.is_some(),
            self.widevine_audio,
            self.stage,
        );
        self.stage = stage;
        step
    }

    fn move_to(&mut self, stage: Stage)
        ensures
            final(self)@ == (JobView { stage, ..old(self)@ }),
    {
        self.stage = stage;
    }

    fn take_paths(&mut self, kind: &str, paths: Vec<String>, stage: Stage)
        ensures
            final(self)@ == (JobView {
                stage,
                written: old(self)@.written + files_of(kind@, texts(paths@)),
                ..old(self)@
            }),
    {
        add_files(&mut self.written, kind, paths);
        self.stage = stage;
    }

    fn take_files(&mut self, files: Vec<(String, String)>, stage: Stage)
        ensures
            final(self)@ == (JobView {
                stage,
                written: old(self)@.written + pairs_of(files@),
                ..old(self)@
            }),
    {
        let mut files = files;
        let ghost known = self.written@;
        let ghost more = files@;
        self.written.append(&mut files);
        assert(pairs_of(self.written@) =~= pairs_of(known) + pairs_of(more));
        self.stage = stage;
    }

    fn take_audio(&mut self, paths: Vec<String>)
        ensures
            final(self)@ == (JobView {
                stage: Stage::Chapter,
                audio_path: if paths@.len() > 0 {
                    Some(texts(paths@)[0])
                } else {
                    None
                },
                written: old(self)@.written + files_of("audio"@, texts(paths@)),
                ..old(self)@
            }),
    {
        self.audio_path = if paths.len() > 0 {
            Some(paths[0].clone())
        } else {
            None
        };
        self.take_paths("audio", paths, Stage::Chapter);
    }

    fn take_decrypted(&mut self, entry: (String, String), superseded: bool)
        ensures
            final(self)@ == (JobView {
                stage: Stage::Done,
                written: (if superseded {
                    without_kind(old(self)@.written, "audio"@)
                } else {
                    old(self)@.written
                }).push((entry.0@, entry.1@)),
                ..old(self)@
            }),
    {
        if superseded {
            self.written = drop_kind(&self.written, "audio");
        }
        let ghost known = pairs_of(self.written@);
        self.written.push(entry);
        assert(pairs_of(self.written@) =~= known.push((entry.0@, entry.1@)));
        self.stage = Stage::Done;
    }

    fn absorb(&mut self, event: Event)
        ensures
            final(self)@ == after(old(self)@, event@),
    {
        match event {
            Event::Found(grant) => {
                if self.stage == Stage::Reuse {
                    self.grant = grant;
                    self.move_to(Stage::License);
                } else {
                    self.move_to(Stage::Failed);
                }
            },
            Event::Granted(grant) => {
                if self.stage == Stage::License {
                    self.grant = Some(grant);
                    self.move_to(Stage::Audio);
                } else {
                    self.move_to(Stage::Failed);
                }
            },
            Event::NoAaxcAsset => {
                if self.stage == Stage::License {
                    self.widevine_audio = true;
                    self.move_to(Stage::Audio);
                } else {
                    self.move_to(Stage::Failed);
                }
            },
            Event::Paths(paths) => match self.stage {
                Stage::Audio => self.take_audio(paths),
                Stage::Chapter => self.take_paths("chapter", paths, Stage::Pdf),
                Stage::Pdf => self.take_paths("pdf", paths, Stage::Cover),
                Stage::Cover => self.take_paths("cover", paths, Stage::Decrypt),
                _ => self.move_to(Stage::Failed),
            },
            Event::Files(files) => {
                if self.stage == Stage::Audio {
                    self.take_files(files, Stage::Chapter);
                } else {
                    self.move_to(Stage::Failed);
                }
            },
            Event::Decrypted(None) => {
                if self.stage == Stage::Decrypt {
                    self.move_to(Stage::Done);
                } else {
                    self.move_to(Stage::Failed);
                }
            },
            Event::Decrypted(Some((entry, superseded))) => {
                if self.stage == Stage::Decrypt {
                    self.take_decrypted(entry, superseded);
                } else {
                    self.move_to(Stage::Failed);
                }
            },
            Event::Failed => self.move_to(Stage::Failed),
        }
    }

    /// Begins the work on an item. `recorded` is what the records say of it;
    /// nothing where they cannot be read.
    pub fn begin(plan: ItemPlan, recorded: Option<&Recorded>, candidates: &Vec<String>) -> (result: (
        ItemJob,
        Step,
    ))
        ensures
            (result.0@, result.1) == settle(
                begun(
                    plan,
                    match recorded {
                        Some(r) => Some(*r),
                        None => None,
                    },
                    texts(candidates@),
                ),
            ),
    {
        let heeded = !plan.force && !plan.no_db_write;
        let targets = match recorded {
            Some(r) => if heeded {
                skip_already_downloaded(plan.targets, r, candidates)
            } else {
                plan.targets
            },
            None => plan.targets,
        };
        let empty = !targets.audio && !targets.chapter && !targets.pdf && !targets.cover;
        let stage = if heeded && empty && !plan.decrypt {
            Stage::Done
        } else {
            Stage::Reuse
        };
        let mut job = ItemJob {
            plan,
            targets,
            stage,
            grant: None,
            widevine_audio: plan.widevine,
            audio_path: None,
            written: Vec::new(),
        };
        assert(job@.written =~= Seq::<(Seq<char>, Seq<char>)>::empty());
        let step = job.settle_now();
        (job, step)
    }

    /// Takes what came of the last step, and says what is to be done next.
    pub fn advance(&mut self, event: Event) -> (step: Step)
        ensures
            (final(self)@, step) == settle(after(old(self)@, event@)),
    {
        self.absorb(event);
        self.settle_now()
    }

    /// The request kind under which the audio of a license is recorded.
    pub fn request_kind(&self) -> (kind: Option<String>)
        ensures
            opt_text(kind) == recorded_kind(self.grant, self.plan.quality),
    {
        match self.grant {
            Some(grant) => Some(resolved(grant, false, self.plan.quality)),
            None => None,
        }
    }
}

/// What a license grants, by the protection that it names.
pub open spec fn grant_of(drm_type: Option<Seq<char>>) -> Grant {
    if drm_type == Some("Mpeg"@) {
        Grant::Mpeg
    } else {
        Grant::Adrm
    }
}

/// What a license grants: plain audio where it says so, else the portable
/// format.
pub fn license_grant(drm_type: Option<&str>) -> (grant: Grant)
    ensures
        grant == grant_of(crate::text::opt_str(drm_type)),
{
    match drm_type {
        Some(word) => if same(word, "Mpeg") {
            Grant::Mpeg
        } else {
            Grant::Adrm
        },
        None => Grant::Adrm,
    }
}

proof fn lemma_settled(
    plan: ItemPlan,
    targets: ArtifactSet,
    granted: bool,
    widevine_audio: bool,
    from: Stage,
)
    ensures
        ({
            let (stage, step) = settled(plan, targets, granted, widevine_audio, from);
            &&& ahead(stage) <= ahead(from)
            &&& match step {
                Step::FindLicense => stage is Reuse && !plan.relicense,
                Step::AskLicense => stage is License && targets.audio && !widevine_audio
                    && !granted,
                Step::FetchAudio => stage is Audio && targets.audio && !widevine_audio && (granted
                    || from is Audio),
                Step::FetchWidevine => stage is Audio && targets.audio && widevine_audio
                    && plan.cdm,
                Step::WriteChapters => stage is Chapter && targets.chapter,
                Step::FetchPdf => stage is Pdf && targets.pdf,
                Step::FetchCovers => stage is Cover && targets.cover,
                Step::Decrypt => stage is Decrypt && plan.decrypt && !widevine_audio,
                Step::Finish => stage is Done,
                Step::NeedsCdm => stage is Failed && widevine_audio && !plan.cdm && targets.audio,
                Step::GiveUp => stage is Failed,
            }
        }),
    decreases ahead(from),
{
    match from {
        Stage::Reuse => {
            lemma_settled(plan, targets, granted, widevine_audio, Stage::License);
        },
        Stage::License => {
            lemma_settled(plan, targets, granted, widevine_audio, Stage::Audio);
        },
        Stage::Audio => {
            lemma_settled(plan, targets, granted, widevine_audio, Stage::Chapter);
        },
        Stage::Chapter => {
            lemma_settled(plan, targets, granted, widevine_audio, Stage::Pdf);
        },
        Stage::Pdf => {
            lemma_settled(plan, targets, granted, widevine_audio, Stage::Cover);
        },
        Stage::Cover => {
            lemma_settled(plan, targets, granted, widevine_audio, Stage::Decrypt);
        },
        _ => {},
    }
}

proof fn lemma_settle(job: JobView)
    ensures
        ahead(settle(job).0.stage) <= ahead(job.stage),
        settle(job).1 is AskLicense ==> job.targets.audio && !job.widevine_audio,
        settle(job).1 is FetchAudio ==> job.targets.audio && !job.widevine_audio && (
        job.grant is Some || job.stage is Audio),
        settle(job).1 is FetchWidevine ==> job.plan.cdm,
        settle(job).0.stage is Audio && job.targets.audio && !job.widevine_audio
            ==> settle(job).1 is FetchAudio,
{
    lemma_settled(job.plan, job.targets, job.grant is Some, job.widevine_audio, job.stage);
}

/// Every step brings the work on an item nearer to its end: no stage comes
/// twice.
pub proof fn law_every_step_moves_on(job: JobView, event: EventView)
    requires
        !(job.stage is Done),
        !(job.stage is Failed),
    ensures
        ahead(settle(after(job, event)).0.stage) < ahead(job.stage),
{
    lemma_settle(after(job, event));
}

/// Whether a job is one that came about by its own steps.
pub open spec fn sound(job: JobView) -> bool {
    &&& (job.stage is Audio && job.targets.audio && !job.widevine_audio) ==> job.grant is Some
    &&& job.plan.widevine ==> job.widevine_audio
}

/// A license is asked for only for audio in the portable format, and that audio
/// is fetched only under a license: the job keeps to this from its beginning
/// through every step.
pub proof fn law_audio_needs_a_license(
    plan: ItemPlan,
    recorded: Option<Recorded>,
    candidates: Seq<Seq<char>>,
    job: JobView,
    event: EventView,
)
    ensures
        sound(settle(begun(plan, recorded, candidates)).0),
        sound(job) ==> sound(settle(after(job, event)).0),
        settle(job).1 is AskLicense ==> job.targets.audio && !job.widevine_audio,
        sound(job) && settle(job).1 is FetchAudio ==> job.grant is Some,
        settle(job).1 is FetchWidevine ==> job.plan.cdm,
{
    lemma_settle(begun(plan, recorded, candidates));
    lemma_settle(job);
    lemma_settle(after(job, event));
}

/// A run that leaves no trace, or that fetches again, takes no notice of the
/// records: it begins as if there were none.
pub proof fn law_records_can_be_passed_over(
    plan: ItemPlan,
    recorded: Option<Recorded>,
    candidates: Seq<Seq<char>>,
)
    requires
        plan.force || plan.no_db_write,
    ensures
        begun(plan, recorded, candidates) == begun(plan, None, candidates),
{
}

/// Running tally of a batch.
#[derive(Clone, Copy, Debug, PartialEq, Eq, Structural)]
pub struct Counters {
    /// Items that were worked on.
    pub items_done: usize,
    /// Items that failed.
    pub failed: usize,
    /// Audio files.
    pub audio: usize,
    /// Covers.
    pub cover: usize,
    /// Chapter files.
    pub chapter: usize,
    /// PDFs.
    pub pdf: usize,
    /// Decrypted files.
    pub decrypted: usize,
}

impl Default for Counters {
    /// A tally of nothing.
    fn default() -> (counters: Counters)
        ensures
            counters == no_counts(),
    {
        Counters {
            items_done: 0,
            failed: 0,
            audio: 0,
            cover: 0,
            chapter: 0,
            pdf: 0,
            decrypted: 0,
        }
    }
}

/// A tally of nothing.
pub open spec fn no_counts() -> Counters {
    Counters { items_done: 0, failed: 0, audio: 0, cover: 0, chapter: 0, pdf: 0, decrypted: 0 }
}

/// How many files of a kind were counted; kinds that are not counted have none.
pub open spec fn counted(counters: Counters, kind: Seq<char>) -> int {
    if kind == "audio"@ {
        counters.audio as int
    } else if kind == "cover"@ {
        counters.cover as int
    } else if kind == "chapter"@ {
        counters.chapter as int
    } else if kind == "pdf"@ {
        counters.pdf as int
    } else if kind == "decrypted"@ {
        counters.decrypted as int
    } else {
        0
    }
}

/// The tally with one more file of a kind; other kinds are not counted.
pub open spec fn bumped(counters: Counters, kind: Seq<char>) -> Counters {
    if kind == "audio"@ {
        Counters { audio: (counters.audio + 1) as usize, ..counters }
    } else if kind == "cover"@ {
        Counters { cover: (counters.cover + 1) as usize, ..counters }
    } else if kind == "chapter"@ {
        Counters { chapter: (counters.chapter + 1) as usize, ..counters }
    } else if kind == "pdf"@ {
        Counters { pdf: (counters.pdf + 1) as usize, ..counters }
    } else if kind == "decrypted"@ {
        Counters { decrypted: (counters.decrypted + 1) as usize, ..counters }
    } else {
        counters
    }
}

impl Counters {
    /// Counts a file of a kind.
    pub fn bump(&mut self, kind: &str)
        requires
            counted(*old(self), kind@) < usize::MAX,
        ensures
            *final(self) == bumped(*old(self), kind@),
    {
        if same(kind, "audio") {
            self.audio = self.audio + 1;
        } else if same(kind, "cover") {
            self.cover = self.cover + 1;
        } else if same(kind, "chapter") {
            self.chapter = self.chapter + 1;
        } else if same(kind, "pdf") {
            self.pdf = self.pdf + 1;
        } else if same(kind, "decrypted") {
            self.decrypted = self.decrypted + 1;
        }
    }
}

/// The tally of a batch in one line.
pub fn summary_line(counters: &Counters, total: usize) -> (line: String)
    ensures
        line@ == "["@ + decimal(counters.items_done as int) + "/"@ + decimal(total as int)
            + "] · audio "@ + decimal(counters.audio as int) + " · cover "@ + decimal(
            counters.cover as int,
        ) + " · chapter "@ + decimal(counters.chapter as int) + " · pdf "@ + decimal(
            counters.pdf as int,
        ) + " · decrypted "@ + decimal(counters.decrypted as int) + " · failed "@ + decimal(
            counters.failed as int,
        ),
{
    let mut line = cat5(
        "[",
        number(counters.items_done as u64).as_str(),
        "/",
        number(total as u64).as_str(),
        "] · audio ",
    );
    line.append(number(counters.audio as u64).as_str());
    line.append(" · cover ");
    line.append(number(counters.cover as u64).as_str());
    line.append(" · chapter ");
    line.append(number(counters.chapter as u64).as_str());
    line.append(" · pdf ");
    line.append(number(counters.pdf as u64).as_str());
    line.append(" · decrypted ");
    line.append(number(counters.decrypted as u64).as_str());
    line.append(" · failed ");
    line.append(number(counters.failed as u64).as_str());
    line
}

/// A batch of items as they come to their ends, in whatever order.
#[derive(Debug)]
pub struct Batch {
    /// The tally.
    pub counters: Counters,
    /// A row for each file: item, kind, path.
    pub rows: Vec<Vec<String>>,
    /// How many items the batch has.
    pub total: usize,
}

/// The tally after the files of an item.
pub open spec fn count_files(counters: Counters, files: Seq<(Seq<char>, Seq<char>)>) -> Counters
    decreases files.len(),
{
    if files.len() == 0 {
        counters
    } else {
        bumped(count_files(counters, files.drop_last()), files.last().0)
    }
}

/// The tally with one more item, and its files.
pub open spec fn with_item(counters: Counters, files: Seq<(Seq<char>, Seq<char>)>) -> Counters {
    Counters {
        items_done: (counters.items_done + 1) as usize,
        ..count_files(counters, files)
    }
}

/// The tally with one more item, which failed.
pub open spec fn with_failure(counters: Counters) -> Counters {
    Counters {
        items_done: (counters.items_done + 1) as usize,
        failed: (counters.failed + 1) as usize,
        ..counters
    }
}

/// The rows of an item's files.
pub open spec fn file_rows(asin: Seq<char>, files: Seq<(Seq<char>, Seq<char>)>) -> Seq<
    Seq<Seq<char>>,
> {
    files.map_values(|file: (Seq<char>, Seq<char>)| seq![asin, file.0, file.1])
}

/// Whether no kind was counted oftener than there are rows, and no more items
/// were worked on than there are.
pub open spec fn batch_ok(batch: Batch) -> bool {
    &&& batch.counters.audio <= batch.rows@.len()
    &&& batch.counters.cover <= batch.rows@.len()
    &&& batch.counters.chapter <= batch.rows@.len()
    &&& batch.counters.pdf <= batch.rows@.len()
    &&& batch.counters.decrypted <= batch.rows@.len()
    &&& batch.counters.failed <= batch.counters.items_done <= batch.total
}

/// The fault of a batch, where an item failed.
pub open spec fn batch_fault(counters: Counters, total: usize) -> Option<
    DownloadError<Seq<char>>,
> {
    if counters.failed > 0 {
        Some(DownloadError::Failed { failed: counters.failed, total })
    } else {
        None
    }
}

/// How a batch ended.
#[derive(Debug)]
pub struct BatchEnd {
    /// The rows in order.
    pub rows: Vec<Vec<String>>,
    /// Whether there is nothing to show and nothing failed.
    pub nothing: bool,
    /// The fault, where an item failed.
    pub error: Option<DownloadError<String>>,
}

impl Batch {
    /// A batch of which no item has come to its end.
    pub fn new(total: usize) -> (batch: Batch)
        ensures
            batch.counters == no_counts(),
            cells(batch.rows@) == Seq::<Seq<Seq<char>>>::empty(),
            batch.total == total,
            batch_ok(batch),
    {
        let batch = Batch { counters: Counters::default(), rows: Vec::new(), total };
        assert(cells(batch.rows@) =~= Seq::<Seq<Seq<char>>>::empty());
        batch
    }

    /// Takes up the files of an item that came to its end.
    pub fn item_done(&mut self, asin: &str, files: &Vec<(String, String)>)
        requires
            batch_ok(*old(self)),
            old(self).counters.items_done < old(self).total,
        ensures
            batch_ok(*final(self)),
            final(self).total == old(self).total,
            cells(final(self).rows@) == cells(old(self).rows@) + file_rows(asin@, pairs_of(files@)),
            final(self).counters == with_item(old(self).counters, pairs_of(files@)),
    {
        let ghost known = cells(self.rows@);
        let ghost start = self.counters;
        let ghost all = pairs_of(files@);
        let ghost more = file_rows(asin@, all);
        let mut i: usize = 0;
        assert(known + more.subrange(0, 0) =~= known);
        assert(count_files(start, all.subrange(0, 0)) == start);
        while i < files.len()
            invariant
                i <= files@.len(),
                all == pairs_of(files@),
                more == file_rows(asin@, all),
                batch_ok(*self),
                self.total == old(self).total,
                self.counters.items_done == start.items_done,
                self.counters == count_files(start, all.subrange(0, i as int)),
                cells(self.rows@) == known + more.subrange(0, i as int),
            decreases files.len() - i,
        {
            assert(all.subrange(0, i + 1).drop_last() =~= all.subrange(0, i as int));
            assert(all[i as int] == (files@[i as int].0@, files@[i as int].1@));
            let ghost now = cells(self.rows@);
            push_row(
                &mut self.rows,
                row3(String::from_str(asin), files[i].0.clone(), files[i].1.clone()),
            );
            assert(cells(self.rows@).len() == self.rows@.len());
            assert(now.len() + 1 == self.rows@.len());
            let filled: usize = self.rows.len();
            assert(filled == self.rows@.len());
            self.counters.bump(files[i].0.as_str());
            assert(more.subrange(0, i + 1) =~= more.subrange(0, i as int).push(more[i as int]));
            assert(cells(self.rows@) =~= known + more.subrange(0, i + 1));
            i = i + 1;
        }
        assert(more.subrange(0, i as int) =~= more);
        assert(all.subrange(0, i as int) =~= all);
        self.counters.items_done = self.counters.items_done + 1;
    }

    /// Takes up an item that failed; says whether the failure ends the run: it
    /// does where the item is the only one.
    pub fn item_failed(&mut self) -> (ends: bool)
        requires
            batch_ok(*old(self)),
            old(self).counters.items_done < old(self).total,
        ensures
            ends == (old(self).total == 1),
            ends ==> *final(self) == *old(self),
            !ends ==> {
                &&& batch_ok(*final(self))
                &&& final(self).total == old(self).total
                &&& final(self).rows == old(self).rows
                &&& final(self).counters == with_failure(old(self).counters)
            },
    {
        if self.total == 1 {
            return true;
        }
        self.counters.failed = self.counters.failed + 1;
        self.counters.items_done = self.counters.items_done + 1;
        false
    }

    /// Ends a batch: the rows come in order, however the items came.
    pub fn finish(self) -> (end: BatchEnd)
        ensures
            rows_in_order(cells(end.rows@)),
            cells(end.rows@).to_multiset() == cells(self.rows@).to_multiset(),
            end.nothing == (self.rows@.len() == 0 && self.counters.failed == 0),
            match end.error {
                Some(error) => batch_fault(self.counters, self.total) == Some(error@),
                None => batch_fault(self.counters, self.total) is None,
            },
    {
        let nothing = self.rows.len() == 0 && self.counters.failed == 0;
        let error = if self.counters.failed > 0 {
            Some(DownloadError::Failed { failed: self.counters.failed, total: self.total })
        } else {
            None
        };
        BatchEnd { rows: sort_rows(self.rows), nothing, error }
    }
}

/// Whether a stage is at hand or still to come.
pub open spec fn not_behind(stage: Stage, from: Stage) -> bool {
    !(from is Failed) && ahead(from) >= ahead(stage)
}

proof fn lemma_settled_passes_nothing(
    plan: ItemPlan,
    targets: ArtifactSet,
    granted: bool,
    widevine_audio: bool,
    from: Stage,
)
    requires
        !(from is Failed),
    ensures
        ({
            let (stage, step) = settled(plan, targets, granted, widevine_audio, from);
            &&& stage is Failed ==> step is NeedsCdm && not_behind(Stage::Audio, from)
                && targets.audio && widevine_audio && !plan.cdm
            &&& !(stage is Failed) ==> {
                &&& not_behind(Stage::Audio, from) && targets.audio ==> not_behind(
                    Stage::Audio,
                    stage,
                )
                &&& not_behind(Stage::Chapter, from) && targets.chapter ==> not_behind(
                    Stage::Chapter,
                    stage,
                )
                &&& not_behind(Stage::Pdf, from) && targets.pdf ==> not_behind(Stage::Pdf, stage)
                &&& not_behind(Stage::Cover, from) && targets.cover ==> not_behind(
                    Stage::Cover,
                    stage,
                )
                &&& not_behind(Stage::Decrypt, from) && plan.decrypt && !widevine_audio
                    ==> not_behind(Stage::Decrypt, stage)
            }
            &&& match stage {
                Stage::Reuse => step is FindLicense,
                Stage::License => step is AskLicense,
                Stage::Audio => step == (if widevine_audio {
                    Step::FetchWidevine
                } else {
                    Step::FetchAudio
                }),
                Stage::Chapter => step is WriteChapters,
                Stage::Pdf => step is FetchPdf,
                Stage::Cover => step is FetchCovers,
                Stage::Decrypt => step is Decrypt,
                Stage::Done => step is Finish,
                Stage::Failed => step is NeedsCdm,
            }
        }),
    decreases ahead(from),
{
    lemma_settled(plan, targets, granted, widevine_audio, from);
    match from {
        Stage::Reuse => {
            lemma_settled_passes_nothing(plan, targets, granted, widevine_audio, Stage::License);
        },
        Stage::License => {
            lemma_settled_passes_nothing(plan, targets, granted, widevine_audio, Stage::Audio);
        },
        Stage::Audio => {
            lemma_settled_passes_nothing(plan, targets, granted, widevine_audio, Stage::Chapter);
        },
        Stage::Chapter => {
            lemma_settled_passes_nothing(plan, targets, granted, widevine_audio, Stage::Pdf);
        },
        Stage::Pdf => {
            lemma_settled_passes_nothing(plan, targets, granted, widevine_audio, Stage::Cover);
        },
        Stage::Cover => {
            lemma_settled_passes_nothing(plan, targets, granted, widevine_audio, Stage::Decrypt);
        },
        _ => {},
    }
}

/// No artifact that is to be fetched is passed over, whatever the others are: a job
/// that has the stage of one ahead of it does not come to stand behind it, and at
/// the stage it is told to fetch just that. The audio is decrypted where that is
/// asked for. The one way to fail here is audio that needs a Widevine device
/// where there is none.
pub proof fn law_no_artifact_is_passed_over(job: JobView)
    requires
        !(job.stage is Failed),
    ensures
        ({
            let (next, step) = settle(job);
            &&& next == (JobView { stage: next.stage, ..job })
            &&& next.stage is Failed ==> step is NeedsCdm && not_behind(Stage::Audio, job.stage)
                && job.targets.audio && job.widevine_audio && !job.plan.cdm
            &&& not_behind(Stage::Audio, job.stage) && job.targets.audio && job.widevine_audio
                && !job.plan.cdm && !(next.stage is Reuse) ==> step is NeedsCdm
            &&& !(next.stage is Failed) ==> {
                &&& not_behind(Stage::Audio, job.stage) && job.targets.audio ==> not_behind(
                    Stage::Audio,
                    next.stage,
                )
                &&& not_behind(Stage::Chapter, job.stage) && job.targets.chapter ==> not_behind(
                    Stage::Chapter,
                    next.stage,
                )
                &&& not_behind(Stage::Pdf, job.stage) && job.targets.pdf ==> not_behind(
                    Stage::Pdf,
                    next.stage,
                )
                &&& not_behind(Stage::Cover, job.stage) && job.targets.cover ==> not_behind(
                    Stage::Cover,
                    next.stage,
                )
                &&& not_behind(Stage::Decrypt, job.stage) && job.plan.decrypt
                    && !job.widevine_audio ==> not_behind(Stage::Decrypt, next.stage)
            }
            &&& step is Finish <==> next.stage is Done
            &&& step is FetchAudio <==> next.stage is Audio && !job.widevine_audio
            &&& step is FetchWidevine <==> next.stage is Audio && job.widevine_audio
            &&& step is WriteChapters <==> next.stage is Chapter
            &&& step is FetchPdf <==> next.stage is Pdf
            &&& step is FetchCovers <==> next.stage is Cover
            &&& step is Decrypt <==> next.stage is Decrypt
            &&& step is AskLicense <==> next.stage is License
            &&& step is FindLicense <==> next.stage is Reuse
        }),
{
    lemma_settled_passes_nothing(
        job.plan,
        job.targets,
        job.grant is Some,
        job.widevine_audio,
        job.stage,
    );
    lemma_settled(job.plan, job.targets, job.grant is Some, job.widevine_audio, job.stage);
}

/// Only what is asked for is fetched, and no stage that lies behind comes again: an
/// artifact that is not to be fetched, or whose stage is over, has no step.
pub proof fn law_only_what_is_asked_for_is_fetched(job: JobView)
    ensures
        ({
            let step = settle(job).1;
            &&& step is FetchAudio || step is FetchWidevine || step is AskLicense ==> job.targets.audio
                && not_behind(Stage::Audio, job.stage)
            &&& step is WriteChapters ==> job.targets.chapter && not_behind(
                Stage::Chapter,
                job.stage,
            )
            &&& step is FetchPdf ==> job.targets.pdf && not_behind(Stage::Pdf, job.stage)
            &&& step is FetchCovers ==> job.targets.cover && not_behind(Stage::Cover, job.stage)
            &&& step is Decrypt ==> job.plan.decrypt && !job.widevine_audio && not_behind(
                Stage::Decrypt,
                job.stage,
            )
            &&& step is AskLicense ==> job.grant is None && !job.widevine_audio
            &&& step is FindLicense ==> job.stage is Reuse && !job.plan.relicense
            &&& job.stage is Reuse && !job.plan.relicense && (job.targets.audio
                || job.targets.chapter || job.targets.pdf || job.targets.cover)
                ==> step is FindLicense
            &&& (job.stage is Reuse && job.plan.relicense || job.stage is License)
                && job.targets.audio && job.grant is None && !job.widevine_audio
                ==> step is AskLicense
        }),
{
    lemma_settled(job.plan, job.targets, job.grant is Some, job.widevine_audio, job.stage);
    reveal_with_fuel(settled, 3);
}

/// The kind under which the files of a stage are counted.
pub open spec fn kind_of_stage(stage: Stage) -> Seq<char> {
    match stage {
        Stage::Audio => "audio"@,
        Stage::Chapter => "chapter"@,
        Stage::Pdf => "pdf"@,
        Stage::Cover => "cover"@,
        _ => Seq::empty(),
    }
}

/// An answer to a step leads one stage on, and what was written is kept: every
/// path under the kind of the stage, behind what was written before. What the job
/// is to fetch does not change on the way.
pub proof fn law_answers_are_kept(job: JobView, event: EventView)
    ensures
        after(job, event).plan == job.plan,
        after(job, event).targets == job.targets,
        event is Failed ==> after(job, event).stage is Failed,
        match (job.stage, event) {
            (Stage::Reuse, EventView::Found(grant)) => {
                &&& after(job, event).grant == grant
                &&& after(job, event).stage is License
            },
            (Stage::License, EventView::Granted(grant)) => {
                &&& after(job, event).grant == Some(grant)
                &&& after(job, event).stage is Audio
                &&& after(job, event).widevine_audio == job.widevine_audio
            },
            (Stage::License, EventView::NoAaxcAsset) => {
                &&& after(job, event).widevine_audio
                &&& after(job, event).stage is Audio
            },
            (Stage::Audio, EventView::Files(files)) => {
                &&& after(job, event).stage is Chapter
                &&& after(job, event).written == job.written + files
            },
            _ => true,
        },
        event matches EventView::Paths(paths) ==> (job.stage is Audio || job.stage is Chapter
            || job.stage is Pdf || job.stage is Cover) ==> {
            &&& ahead(after(job, event).stage) == ahead(job.stage) - 1
            &&& after(job, event).written.len() == job.written.len() + paths.len()
            &&& forall|i: int|
                0 <= i < job.written.len() ==> (#[trigger] after(job, event).written[i])
                    == job.written[i]
            &&& forall|i: int|
                job.written.len() <= i < after(job, event).written.len() ==> (#[trigger] after(
                    job,
                    event,
                ).written[i]) == (kind_of_stage(job.stage), paths[i - job.written.len()])
            &&& job.stage is Audio && paths.len() > 0 ==> after(job, event).audio_path == Some(
                paths[0],
            )
        },
{
}

proof fn lemma_without_kind(
    files: Seq<(Seq<char>, Seq<char>)>,
    kind: Seq<char>,
    file: (Seq<char>, Seq<char>),
)
    ensures
        without_kind(files, kind).contains(file) <==> files.contains(file) && file.0 != kind,
    decreases files.len(),
{
    if files.len() > 0 {
        let front = files.drop_last();
        lemma_without_kind(front, kind, file);
        let left = without_kind(files, kind);
        let before = without_kind(front, kind);
        if before.contains(file) && files.last().0 != kind {
            let k = choose|k: int| 0 <= k < before.len() && before[k] == file;
            assert(left[k] == file);
        }
        if files.last() == file && file.0 != kind {
            assert(left[left.len() - 1] == file);
        }
        if files.contains(file) {
            let k = choose|k: int| 0 <= k < files.len() && files[k] == file;
            if k < front.len() {
                assert(front[k] == file);
            }
        }
        if front.contains(file) {
            let k = choose|k: int| 0 <= k < front.len() && front[k] == file;
            assert(files[k] == file);
        }
        if left.contains(file) {
            let k = choose|k: int| 0 <= k < left.len() && left[k] == file;
            if k < before.len() {
                assert(before[k] == file);
            }
        }
    }
}

/// A decrypted file is among what was written. It takes the place of the audio
/// where it says so, and of nothing else: every file of another kind stays.
pub proof fn law_decrypted_files_supersede_audio_alone(
    job: JobView,
    entry: (Seq<char>, Seq<char>),
    superseded: bool,
    file: (Seq<char>, Seq<char>),
)
    requires
        job.stage is Decrypt,
    ensures
        ({
            let next = after(job, EventView::Decrypted(Some((entry, superseded))));
            &&& next.stage is Done
            &&& next.written.last() == entry
            &&& next.written.drop_last().contains(file) <==> job.written.contains(file) && !(
            superseded && file.0 == "audio"@)
        }),
        after(job, EventView::Decrypted(None)).stage is Done,
        after(job, EventView::Decrypted(None)).written == job.written,
{
    let next = after(job, EventView::Decrypted(Some((entry, superseded))));
    lemma_without_kind(job.written, "audio"@, file);
    if superseded {
        assert(next.written.drop_last() =~= without_kind(job.written, "audio"@));
    } else {
        assert(next.written.drop_last() =~= job.written);
    }
}

/// Records keep audio and PDF from being fetched again, and nothing else: audio
/// where a kind that the request can resolve to is recorded, a PDF where one is.
/// Covers and chapters are fetched whatever is recorded, and so is everything where
/// records are passed over.
pub proof fn law_records_keep_audio_and_pdf_alone(
    plan: ItemPlan,
    recorded: Option<Recorded>,
    candidates: Seq<Seq<char>>,
)
    ensures
        ({
            let job = begun(plan, recorded, candidates);
            let heeded = recorded is Some && !plan.force && !plan.no_db_write;
            &&& job.plan == plan
            &&& job.targets.cover == plan.targets.cover
            &&& job.targets.chapter == plan.targets.chapter
            &&& job.targets.pdf == (plan.targets.pdf && !(heeded && recorded->Some_0.pdf))
            &&& job.targets.audio == (plan.targets.audio && !(heeded && exists|i: int|
                0 <= i < recorded->Some_0.request_kinds@.len() && candidates.contains(
                    #[trigger] texts(recorded->Some_0.request_kinds@)[i],
                )))
            &&& job.stage is Reuse || job.stage is Done
            &&& job.stage is Done ==> !plan.decrypt && !job.targets.audio && !job.targets.chapter
                && !job.targets.pdf && !job.targets.cover
            &&& job.written.len() == 0
            &&& job.grant is None
            &&& job.widevine_audio == plan.widevine
        }),
{
}

/// How many files of a kind a list has.
pub open spec fn files_of_kind(files: Seq<(Seq<char>, Seq<char>)>, kind: Seq<char>) -> nat {
    files.filter(|file: (Seq<char>, Seq<char>)| file.0 == kind).len()
}

proof fn lemma_kinds_differ()
    ensures
        "audio"@ != "cover"@,
        "audio"@ != "chapter"@,
        "audio"@ != "pdf"@,
        "audio"@ != "decrypted"@,
        "cover"@ != "chapter"@,
        "cover"@ != "pdf"@,
        "cover"@ != "decrypted"@,
        "chapter"@ != "pdf"@,
        "chapter"@ != "decrypted"@,
        "pdf"@ != "decrypted"@,
{
    reveal_strlit("audio");
    reveal_strlit("cover");
    reveal_strlit("chapter");
    reveal_strlit("pdf");
    reveal_strlit("decrypted");
    assert("audio"@[0] == 'a');
    assert("cover"@[0] == 'c');
    assert("audio"@.len() == 5);
    assert("chapter"@.len() == 7);
    assert("pdf"@.len() == 3);
    assert("decrypted"@.len() == 9);
}

proof fn lemma_kind_counts_are_bounded(files: Seq<(Seq<char>, Seq<char>)>, kind: Seq<char>)
    ensures
        files_of_kind(files, kind) <= files.len(),
    decreases files.len(),
{
    reveal(Seq::filter);
    if files.len() > 0 {
        lemma_kind_counts_are_bounded(files.drop_last(), kind);
    }
}

/// Each kind is tallied by the number of its files, one apart from the others; no
/// file counts as an item or as a failure.
pub proof fn law_files_are_tallied_by_kind(
    counters: Counters,
    files: Seq<(Seq<char>, Seq<char>)>,
)
    requires
        counters.audio + files.len() <= usize::MAX,
        counters.cover + files.len() <= usize::MAX,
        counters.chapter + files.len() <= usize::MAX,
        counters.pdf + files.len() <= usize::MAX,
        counters.decrypted + files.len() <= usize::MAX,
    ensures
        ({
            let next = count_files(counters, files);
            &&& next.items_done == counters.items_done
            &&& next.failed == counters.failed
            &&& next.audio == counters.audio + files_of_kind(files, "audio"@)
            &&& next.cover == counters.cover + files_of_kind(files, "cover"@)
            &&& next.chapter == counters.chapter + files_of_kind(files, "chapter"@)
            &&& next.pdf == counters.pdf + files_of_kind(files, "pdf"@)
            &&& next.decrypted == counters.decrypted + files_of_kind(files, "decrypted"@)
        }),
    decreases files.len(),
{
    reveal(Seq::filter);
    lemma_kinds_differ();
    if files.len() > 0 {
        let front = files.drop_last();
        law_files_are_tallied_by_kind(counters, front);
        lemma_kind_counts_are_bounded(front, "audio"@);
        lemma_kind_counts_are_bounded(front, "cover"@);
        lemma_kind_counts_are_bounded(front, "chapter"@);
        lemma_kind_counts_are_bounded(front, "pdf"@);
        lemma_kind_counts_are_bounded(front, "decrypted"@);
    }
}

/// A license grants plain audio exactly where it names it.
pub proof fn law_licenses_grant_what_they_name(word: Seq<char>)
    ensures
        grant_of(Some(word)) is Mpeg <==> word == "Mpeg"@,
        word != "Mpeg"@ ==> grant_of(Some(word)) is Adrm,
        grant_of(None) is Adrm,
{
}

/// Audio is recorded under the path that its license granted and the quality that was
/// asked for, and under a kind that a later run of the same request looks for.
pub proof fn law_audio_is_recorded_as_it_is_looked_for(grant: Grant, quality: Quality)
    ensures
        recorded_kind(None, quality) is None,
        recorded_kind(Some(grant), quality) == Some(resolved_kind(grant, false, quality)),
        super::request_kind::candidate_kinds(false, false, quality).contains(
            recorded_kind(Some(grant), quality)->Some_0,
        ),
{
    super::request_kind::law_resolved_is_a_candidate(false, grant, false, quality);
}

/// An item that came to its end counts once, and its files by their kinds; one that
/// failed counts once among the items and once among the failures, and its files not
/// at all.
pub proof fn law_items_count_once(counters: Counters, files: Seq<(Seq<char>, Seq<char>)>)
    requires
        counters.items_done < usize::MAX,
        counters.failed < usize::MAX,
        counters.audio + files.len() <= usize::MAX,
        counters.cover + files.len() <= usize::MAX,
        counters.chapter + files.len() <= usize::MAX,
        counters.pdf + files.len() <= usize::MAX,
        counters.decrypted + files.len() <= usize::MAX,
    ensures
        with_item(counters, files).items_done == counters.items_done + 1,
        with_item(counters, files).failed == counters.failed,
        with_item(counters, files).audio == counters.audio + files_of_kind(files, "audio"@),
        with_item(counters, files).cover == counters.cover + files_of_kind(files, "cover"@),
        with_item(counters, files).chapter == counters.chapter + files_of_kind(files, "chapter"@),
        with_item(counters, files).pdf == counters.pdf + files_of_kind(files, "pdf"@),
        with_item(counters, files).decrypted == counters.decrypted + files_of_kind(
            files,
            "decrypted"@,
        ),
        with_failure(counters).items_done == counters.items_done + 1,
        with_failure(counters).failed == counters.failed + 1,
        with_failure(counters).audio == counters.audio,
        with_failure(counters).cover == counters.cover,
        with_failure(counters).chapter == counters.chapter,
        with_failure(counters).pdf == counters.pdf,
        with_failure(counters).decrypted == counters.decrypted,
{
    law_files_are_tallied_by_kind(counters, files);
}

/// Every file of an item has a row: the item, the kind and the path.
pub proof fn law_every_file_has_a_row(
    asin: Seq<char>,
    files: Seq<(Seq<char>, Seq<char>)>,
    i: int,
)
    requires
        0 <= i < files.len(),
    ensures
        file_rows(asin, files).len() == files.len(),
        file_rows(asin, files)[i] == seq![asin, files[i].0, files[i].1],
{
}

/// A batch fails exactly where an item of it failed, and says how many did.
pub proof fn law_failed_items_fail_the_batch(counters: Counters, total: usize)
    ensures
        batch_fault(counters, total) is None <==> counters.failed == 0,
        batch_fault(counters, total) matches Some(fault) ==> fault == (DownloadError::<
            Seq<char>,
        >::Failed { failed: counters.failed, total }),
        batch_fault(with_failure(no_counts()), total) is Some,
{
}

/// The steps that a job is told to take, given what comes of each of them in turn; the
/// first is the one that it begins with.
pub open spec fn steps_of(job: JobView, events: Seq<EventView>) -> Seq<Step>
    decreases events.len(),
{
    let (next, step) = settle(job);
    if events.len() == 0 {
        seq![step]
    } else {
        seq![step] + steps_of(after(next, events[0]), events.drop_first())
    }
}

/// The job after what came of its steps in turn.
pub open spec fn job_after(job: JobView, events: Seq<EventView>) -> JobView
    decreases events.len(),
{
    let next = settle(job).0;
    if events.len() == 0 {
        next
    } else {
        job_after(after(next, events[0]), events.drop_first())
    }
}

/// Whether something is to be done at a stage.
pub open spec fn wanted_at(job: JobView, stage: Stage) -> bool {
    match stage {
        Stage::Audio => job.targets.audio,
        Stage::Chapter => job.targets.chapter,
        Stage::Pdf => job.targets.pdf,
        Stage::Cover => job.targets.cover,
        _ => false,
    }
}

/// Whether a step is the work of a stage.
pub open spec fn works_at(step: Step, stage: Stage) -> bool {
    match stage {
        Stage::Audio => step is FetchAudio || step is FetchWidevine,
        Stage::Chapter => step is WriteChapters,
        Stage::Pdf => step is FetchPdf,
        Stage::Cover => step is FetchCovers,
        _ => false,
    }
}

proof fn lemma_failed_stays_failed(job: JobView, events: Seq<EventView>)
    requires
        job.stage is Failed,
    ensures
        job_after(job, events).stage is Failed,
    decreases events.len(),
{
    if events.len() > 0 {
        lemma_failed_stays_failed(after(settle(job).0, events[0]), events.drop_first());
    }
}

proof fn lemma_run_takes_every_step(job: JobView, events: Seq<EventView>, stage: Stage)
    requires
        not_behind(stage, job.stage),
        wanted_at(job, stage),
        job_after(job, events).stage is Done,
    ensures
        exists|i: int|
            0 <= i < steps_of(job, events).len() && works_at(
                #[trigger] steps_of(job, events)[i],
                stage,
            ),
    decreases events.len(),
{
    law_no_artifact_is_passed_over(job);
    let (next, step) = settle(job);
    let steps = steps_of(job, events);
    assert(steps[0] == step);
    if next.stage is Failed {
        if events.len() > 0 {
            lemma_failed_stays_failed(after(next, events[0]), events.drop_first());
        }
    } else if next.stage == stage {
        assert(works_at(steps[0], stage));
    } else if events.len() > 0 {
        let rest = events.drop_first();
        let then = after(next, events[0]);
        law_answers_are_kept(next, events[0]);
        if then.stage is Failed {
            lemma_failed_stays_failed(then, rest);
        } else {
            assert(not_behind(stage, then.stage));
            lemma_run_takes_every_step(then, rest, stage);
            let k = choose|k: int|
                0 <= k < steps_of(then, rest).len() && works_at(
                    #[trigger] steps_of(then, rest)[k],
                    stage,
                );
            assert(steps[k + 1] == steps_of(then, rest)[k]);
        }
    }
}

/// An item is done only once each artifact that was to be fetched had its step: whatever
/// comes of the steps, a run that ends with the item done has fetched the audio, written
/// the chapters, fetched the PDF and fetched the covers, as far as they were to be.
pub proof fn law_done_items_had_every_step(
    plan: ItemPlan,
    recorded: Option<Recorded>,
    candidates: Seq<Seq<char>>,
    events: Seq<EventView>,
    stage: Stage,
)
    requires
        wanted_at(begun(plan, recorded, candidates), stage),
        job_after(begun(plan, recorded, candidates), events).stage is Done,
    ensures
        exists|i: int|
            0 <= i < steps_of(begun(plan, recorded, candidates), events).len() && works_at(
                #[trigger] steps_of(begun(plan, recorded, candidates), events)[i],
                stage,
            ),
{
    law_records_keep_audio_and_pdf_alone(plan, recorded, candidates);
    lemma_run_takes_every_step(begun(plan, recorded, candidates), events, stage);
}

} // verus!
