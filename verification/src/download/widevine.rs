//! The Widevine way to the audio of a title: its steps, its content key, and
//! what it leaves behind.

use vstd::prelude::*;
use vstd::string::StringExecFns;
use crate::text::is_hex;
use crate::text::opt_text;
use crate::text::starts;
use crate::text::starts_with;
use crate::text_map::pairs_of;

verus! {

/// The character of a hexadecimal digit.
pub open spec fn hex_digit(n: int) -> char {
    if n < 10 {
        (n + 48) as char
    } else {
        (n + 87) as char
    }
}

/// The number of a hexadecimal digit.
pub open spec fn hex_value(c: char) -> int {
    if '0' <= c && c <= '9' {
        c as u32 as int - 48
    } else if 'a' <= c && c <= 'f' {
        c as u32 as int - 87
    } else {
        c as u32 as int - 55
    }
}

/// The bytes in hexadecimal, two small digits each.
pub open spec fn hex_text(bytes: Seq<u8>) -> Seq<char> {
    Seq::new(
        bytes.len() * 2,
        |i: int|
            if i % 2 == 0 {
                hex_digit(bytes[i / 2] as int / 16)
            } else {
                hex_digit(bytes[i / 2] as int % 16)
            },
    )
}

/// The bytes that a text of hexadecimal digits stands for; nothing for any
/// other text, or for an odd number of digits.
pub open spec fn hex_bytes(s: Seq<char>) -> Option<Seq<u8>> {
    if s.len() % 2 == 0 && forall|i: int| 0 <= i < s.len() ==> is_hex(#[trigger] s[i]) {
        Some(
            Seq::new(
                s.len() / 2,
                |i: int| (hex_value(s[2 * i]) * 16 + hex_value(s[2 * i + 1])) as u8,
            ),
        )
    } else {
        None
    }
}

/// `hex::encode`: two small hexadecimal digits for each byte.
#[verifier::external_body]
pub(crate) fn hex_encode(bytes: &[u8]) -> (s: String)
    ensures
        s@ == hex_text(bytes@),
{
    hex::encode(bytes)
}

/// `hex::decode`: the bytes of an even number of hexadecimal digits, small or
/// capital; nothing for any other text.
#[verifier::external_body]
pub(crate) fn hex_decode(s: &str) -> (bytes: Option<Vec<u8>>)
    ensures
        match bytes {
            Some(b) => hex_bytes(s@) == Some(b@),
            None => hex_bytes(s@) is None,
        },
{
    hex::decode(s).ok()
}

/// What was written in hexadecimal reads back as it was.
pub proof fn law_hex_reads_back(bytes: Seq<u8>)
    ensures
        hex_bytes(hex_text(bytes)) == Some(bytes),
{
    let s = hex_text(bytes);
    assert forall|i: int| 0 <= i < s.len() implies is_hex(#[trigger] s[i]) by {
        let b = bytes[i / 2] as int;
        assert(0 <= b / 16 < 16);
        assert(0 <= b % 16 < 16);
    }
    assert(s.len() / 2 == bytes.len());
    let back = hex_bytes(s)->Some_0;
    assert forall|i: int| 0 <= i < bytes.len() implies back[i] == bytes[i] by {
        let b = bytes[i] as int;
        assert((2 * i) % 2 == 0 && (2 * i) / 2 == i);
        assert((2 * i + 1) % 2 == 1 && (2 * i + 1) / 2 == i);
        assert(s[2 * i] == hex_digit(b / 16));
        assert(s[2 * i + 1] == hex_digit(b % 16));
        assert(hex_value(hex_digit(b / 16)) == b / 16);
        assert(hex_value(hex_digit(b % 16)) == b % 16);
        assert(b == (b / 16) * 16 + b % 16);
    }
    assert(back =~= bytes);
}

/// The key of a title's content.
#[derive(Debug)]
pub struct ContentKey {
    /// Its id, of sixteen bytes.
    pub kid: Vec<u8>,
    /// The key itself.
    pub key: Vec<u8>,
}

/// The texts that a key file holds: the id and the key, in hexadecimal.
pub fn wvkey_fields(key: &ContentKey) -> (fields: (String, String))
    ensures
        fields.0@ == hex_text(key.kid@),
        fields.1@ == hex_text(key.key@),
{
    (hex_encode(key.kid.as_slice()), hex_encode(key.key.as_slice()))
}

/// The key that the texts of a key file stand for; nothing where they are no
/// hexadecimal, or the id is not of sixteen bytes.
pub fn wvkey_from_fields(kid: &str, key: &str) -> (result: Option<ContentKey>)
    ensures
        match result {
            Some(k) => key_in(kid@, key@) == Some((k.kid@, k.key@)),
            None => key_in(kid@, key@) is None,
        },
{
    match (hex_decode(kid), hex_decode(key)) {
        (Some(kid), Some(key)) => {
            if kid.len() == 16 {
                Some(ContentKey { kid, key })
            } else {
                None
            }
        },
        _ => None,
    }
}

/// The extension of a decrypted file: audio of the AAC family is an audiobook,
/// any other an MP4.
pub fn decrypted_ext(codec: &str) -> (ext: &'static str)
    ensures
        ext@ == (if starts(codec@, "mp4a"@) {
            "m4b"@
        } else {
            "mp4"@
        }),
{
    if starts_with(codec, "mp4a") {
        "m4b"
    } else {
        "mp4"
    }
}

/// Whether spatial audio is asked for: only a device of the first security
/// level gets a license for it.
pub fn spatial_allowed(spatial: bool, security_level: u8) -> (yes: bool)
    ensures
        yes == (spatial && security_level == 1),
{
    spatial && security_level == 1
}

/// How the audio of a title is fetched the Widevine way.
#[derive(Clone, Copy, Debug, PartialEq, Eq, Structural)]
pub struct WidevinePlan {
    /// Whether records are passed over.
    pub force: bool,
    /// Whether the run leaves no trace in the database.
    pub no_db_write: bool,
    /// Whether the audio is decrypted.
    pub decrypt: bool,
    /// Whether the encrypted file is kept then.
    pub keep_source: bool,
}

/// Where the work stands.
#[derive(Clone, Copy, Debug, PartialEq, Eq, Structural)]
pub enum WidevineStage {
    /// A license is asked for.
    License,
    /// Plain audio is fetched.
    Plain,
    /// The key file is read.
    ReadKey,
    /// The key is asked for.
    AskKey,
    /// The encrypted file is fetched.
    Fetch,
    /// The records are asked for a decrypted file.
    Records,
    /// The file is decrypted.
    Decrypt,
    /// The encrypted file is removed.
    Remove,
    /// All is done.
    Done,
    /// The work was given up.
    Failed,
}

/// What came of a step.
#[derive(Debug)]
pub enum WidevineEvent {
    /// The license is for Widevine.
    Widevine,
    /// The license is for plain audio.
    Plain,
    /// The key file held the key, or not.
    KeyFile(bool),
    /// The key was granted, and its file written.
    KeyGranted,
    /// A file was fetched, or decrypted, to this path.
    File(String),
    /// Whether a decrypted file is recorded.
    Recorded(bool),
    /// The encrypted file, its key and its record are gone.
    Removed,
    /// The step failed.
    Failed,
}

/// What came of a step, in texts.
pub enum WidevineEventView {
    /// The license is for Widevine.
    Widevine,
    /// The license is for plain audio.
    Plain,
    /// The key file held the key, or not.
    KeyFile(bool),
    /// The key was granted.
    KeyGranted,
    /// A file was fetched, or decrypted.
    File(Seq<char>),
    /// Whether a decrypted file is recorded.
    Recorded(bool),
    /// The encrypted file is gone.
    Removed,
    /// The step failed.
    Failed,
}

impl View for WidevineEvent {
    type V = WidevineEventView;

    open spec fn view(&self) -> WidevineEventView {
        match *self {
            WidevineEvent::Widevine => WidevineEventView::Widevine,
            WidevineEvent::Plain => WidevineEventView::Plain,
            WidevineEvent::KeyFile(held) => WidevineEventView::KeyFile(held),
            WidevineEvent::KeyGranted => WidevineEventView::KeyGranted,
            WidevineEvent::File(path) => WidevineEventView::File(path@),
            WidevineEvent::Recorded(yes) => WidevineEventView::Recorded(yes),
            WidevineEvent::Removed => WidevineEventView::Removed,
            WidevineEvent::Failed => WidevineEventView::Failed,
        }
    }
}

/// The work on the audio of one title.
#[derive(Debug)]
pub struct WidevineJob {
    /// How it is done.
    pub plan: WidevinePlan,
    /// Where it stands.
    pub stage: WidevineStage,
    /// The encrypted, or the plain, file.
    pub source: Option<String>,
    /// The decrypted file.
    pub output: Option<String>,
}

/// The work on the audio of one title, in texts.
pub struct WidevineJobView {
    /// How it is done.
    pub plan: WidevinePlan,
    /// Where it stands.
    pub stage: WidevineStage,
    /// The encrypted, or the plain, file.
    pub source: Option<Seq<char>>,
    /// The decrypted file.
    pub output: Option<Seq<char>>,
}

impl View for WidevineJob {
    type V = WidevineJobView;

    open spec fn view(&self) -> WidevineJobView {
        WidevineJobView {
            plan: self.plan,
            stage: self.stage,
            source: opt_text(self.source),
            output: opt_text(self.output),
        }
    }
}

/// The work after what came of its step; an event that does not answer the step
/// gives it up.
pub open spec fn widevine_after(job: WidevineJobView, event: WidevineEventView) -> WidevineJobView {
    match (job.stage, event) {
        (WidevineStage::License, WidevineEventView::Widevine) => WidevineJobView {
            stage: WidevineStage::ReadKey,
            ..job
        },
        (WidevineStage::License, WidevineEventView::Plain) => WidevineJobView {
            stage: WidevineStage::Plain,
            ..job
        },
        (WidevineStage::Plain, WidevineEventView::File(path)) => WidevineJobView {
            stage: WidevineStage::Done,
            source: Some(path),
            ..job
        },
        (WidevineStage::ReadKey, WidevineEventView::KeyFile(held)) => WidevineJobView {
            stage: if held {
                WidevineStage::Fetch
            } else {
                WidevineStage::AskKey
            },
            ..job
        },
        (WidevineStage::AskKey, WidevineEventView::KeyGranted) => WidevineJobView {
            stage: WidevineStage::Fetch,
            ..job
        },
        (WidevineStage::Fetch, WidevineEventView::File(path)) => WidevineJobView {
            stage: if !job.plan.decrypt {
                WidevineStage::Done
            } else if job.plan.force || job.plan.no_db_write {
                WidevineStage::Decrypt
            } else {
                WidevineStage::Records
            },
            source: Some(path),
            ..job
        },
        (WidevineStage::Records, WidevineEventView::Recorded(yes)) => WidevineJobView {
            stage: if yes {
                WidevineStage::Done
            } else {
                WidevineStage::Decrypt
            },
            ..job
        },
        (WidevineStage::Decrypt, WidevineEventView::File(path)) => WidevineJobView {
            stage: if job.plan.keep_source {
                WidevineStage::Done
            } else {
                WidevineStage::Remove
            },
            output: Some(path),
            ..job
        },
        (WidevineStage::Remove, WidevineEventView::Removed) => WidevineJobView {
            stage: WidevineStage::Done,
            source: None,
            ..job
        },
        _ => WidevineJobView { stage: WidevineStage::Failed, ..job },
    }
}

/// The files that the work leaves, each as audio: the encrypted one unless it
/// was removed, and the decrypted one.
pub open spec fn widevine_files(job: WidevineJobView) -> Seq<(Seq<char>, Seq<char>)> {
    (match job.source {
        Some(path) => seq![("audio"@, path)],
        None => Seq::empty(),
    }) + (match job.output {
        Some(path) => seq![("audio"@, path)],
        None => Seq::empty(),
    })
}

impl WidevineJob {
    /// Begins the work on a title: with the license.
    pub fn begin(plan: WidevinePlan) -> (job: WidevineJob)
        ensures
            job@ == (WidevineJobView {
                plan,
                stage: WidevineStage::License,
                source: None,
                output: None,
            }),
    {
        WidevineJob { plan, stage: WidevineStage::License, source: None, output: None }
    }

    /// Takes what came of the stage that the work stands at.
    pub fn advance(&mut self, event: WidevineEvent)
        ensures
            final(self)@ == widevine_after(old(self)@, event@),
    {
        let next = match (&self.stage, &event) {
            (WidevineStage::License, WidevineEvent::Widevine) => WidevineStage::ReadKey,
            (WidevineStage::License, WidevineEvent::Plain) => WidevineStage::Plain,
            (WidevineStage::Plain, WidevineEvent::File(_)) => WidevineStage::Done,
            (WidevineStage::ReadKey, WidevineEvent::KeyFile(held)) => if *held {
                WidevineStage::Fetch
            } else {
                WidevineStage::AskKey
            },
            (WidevineStage::AskKey, WidevineEvent::KeyGranted) => WidevineStage::Fetch,
            (WidevineStage::Fetch, WidevineEvent::File(_)) => if !self.plan.decrypt {
                WidevineStage::Done
            } else if self.plan.force || self.plan.no_db_write {
                WidevineStage::Decrypt
            } else {
                WidevineStage::Records
            },
            (WidevineStage::Records, WidevineEvent::Recorded(yes)) => if *yes {
                WidevineStage::Done
            } else {
                WidevineStage::Decrypt
            },
            (WidevineStage::Decrypt, WidevineEvent::File(_)) => if self.plan.keep_source {
                WidevineStage::Done
            } else {
                WidevineStage::Remove
            },
            (WidevineStage::Remove, WidevineEvent::Removed) => WidevineStage::Done,
            _ => WidevineStage::Failed,
        };
        if let WidevineEvent::File(path) = event {
            match self.stage {
                WidevineStage::Plain | WidevineStage::Fetch => {
                    self.source = Some(path);
                },
                WidevineStage::Decrypt => {
                    self.output = Some(path);
                },
                _ => {},
            }
        } else if self.stage == WidevineStage::Remove && next == WidevineStage::Done {
            self.source = None;
        }
        self.stage = next;
    }

    /// The files that the work leaves, by kind.
    pub fn files(&self) -> (files: Vec<(String, String)>)
        ensures
            pairs_of(files@) == widevine_files(self@),
    {
        let mut files: Vec<(String, String)> = Vec::new();
        if let Some(path) = &self.source {
            files.push((String::from_str("audio"), path.clone()));
        }
        if let Some(path) = &self.output {
            files.push((String::from_str("audio"), path.clone()));
        }
        assert(pairs_of(files@) =~= widevine_files(self@));
        files
    }
}

/// How many stages are ahead.
pub open spec fn widevine_ahead(stage: WidevineStage) -> nat {
    match stage {
        WidevineStage::License => 8,
        WidevineStage::Plain => 7,
        WidevineStage::ReadKey => 7,
        WidevineStage::AskKey => 6,
        WidevineStage::Fetch => 5,
        WidevineStage::Records => 4,
        WidevineStage::Decrypt => 3,
        WidevineStage::Remove => 2,
        WidevineStage::Done => 1,
        WidevineStage::Failed => 0,
    }
}

/// Every step brings the work nearer to its end.
pub proof fn law_widevine_moves_on(job: WidevineJobView, event: WidevineEventView)
    requires
        !(job.stage is Done),
        !(job.stage is Failed),
    ensures
        widevine_ahead(widevine_after(job, event).stage) < widevine_ahead(job.stage),
{
}

/// Whether a job is one that came about by its own steps.
pub open spec fn widevine_sound(job: WidevineJobView) -> bool {
    match job.stage {
        WidevineStage::License | WidevineStage::Plain | WidevineStage::ReadKey
        | WidevineStage::AskKey | WidevineStage::Fetch => job.source is None && job.output is None,
        WidevineStage::Records | WidevineStage::Decrypt => job.source is Some && job.output is None
            && job.plan.decrypt,
        WidevineStage::Remove => job.source is Some && job.output is Some
            && !job.plan.keep_source,
        WidevineStage::Done => {
            &&& job.source is Some || job.output is Some
            &&& job.source is None ==> !job.plan.keep_source
        },
        WidevineStage::Failed => true,
    }
}

/// The encrypted file is given up only after the decrypted one is there, and
/// only where it was not to be kept: a finished job leaves a file.
pub proof fn law_widevine_never_loses_the_audio(job: WidevineJobView, event: WidevineEventView)
    requires
        widevine_sound(job),
    ensures
        widevine_sound(widevine_after(job, event)),
        widevine_after(job, event).stage is Done && !(job.stage is Done) ==> widevine_files(
            widevine_after(job, event),
        ).len() > 0,
        job.source is Some && widevine_after(job, event).source is None ==> job.output is Some
            && !job.plan.keep_source,
{
}

/// Each answer leads to the step that it calls for: a protected title to its key,
/// looked for before it is asked for, then to the audio; the audio is decrypted where
/// that is asked for and, unless records are passed over, not yet recorded; and
/// the encrypted file is removed only where it is not to be kept. Every file that
/// was written is kept in mind.
pub proof fn law_widevine_steps_follow_the_answers(
    job: WidevineJobView,
    path: Seq<char>,
    yes: bool,
)
    ensures
        job.stage is License ==> widevine_after(job, WidevineEventView::Widevine).stage is ReadKey
            && widevine_after(job, WidevineEventView::Plain).stage is Plain,
        job.stage is ReadKey ==> (widevine_after(job, WidevineEventView::KeyFile(true)).stage
            is Fetch) && (widevine_after(job, WidevineEventView::KeyFile(false)).stage is AskKey),
        job.stage is AskKey ==> widevine_after(job, WidevineEventView::KeyGranted).stage is Fetch,
        job.stage is Plain ==> ({
            let next = widevine_after(job, WidevineEventView::File(path));
            next.stage is Done && next.source == Some(path)
        }),
        job.stage is Fetch ==> ({
            let next = widevine_after(job, WidevineEventView::File(path));
            &&& next.source == Some(path)
            &&& next.stage is Done <==> !job.plan.decrypt
            &&& job.plan.decrypt ==> (next.stage is Decrypt <==> job.plan.force
                || job.plan.no_db_write)
            &&& job.plan.decrypt && !job.plan.force && !job.plan.no_db_write ==> next.stage
                is Records
        }),
        job.stage is Records ==> ({
            let next = widevine_after(job, WidevineEventView::Recorded(yes));
            if yes {
                next.stage is Done
            } else {
                next.stage is Decrypt
            }
        }),
        job.stage is Decrypt ==> ({
            let next = widevine_after(job, WidevineEventView::File(path));
            &&& next.output == Some(path)
            &&& next.source == job.source
            &&& next.stage is Remove <==> !job.plan.keep_source
            &&& next.stage is Done <==> job.plan.keep_source
        }),
        job.stage is Remove ==> ({
            let next = widevine_after(job, WidevineEventView::Removed);
            next.stage is Done && next.source is None && next.output == job.output
        }),
        widevine_after(job, WidevineEventView::Failed).stage is Failed,
        widevine_after(job, WidevineEventView::File(path)).plan == job.plan,
{
}

/// The files that the work leaves are those that it wrote and did not remove, each
/// as audio.
pub proof fn law_widevine_files_are_those_written(job: WidevineJobView, path: Seq<char>)
    ensures
        widevine_files(job).contains(("audio"@, path)) <==> job.source == Some(path) || job.output
            == Some(path),
        widevine_files(job).len() == (if job.source is Some {
            1int
        } else {
            0
        }) + (if job.output is Some {
            1int
        } else {
            0
        }),
{
    let files = widevine_files(job);
    if job.source == Some(path) {
        assert(files[0] == ("audio"@, path));
    }
    if job.output == Some(path) {
        assert(files[files.len() - 1] == ("audio"@, path));
    }
}

/// The id and the key that two texts of hexadecimal digits hold; nothing where one is
/// none, or where the id has not sixteen bytes.
pub open spec fn key_in(kid: Seq<char>, key: Seq<char>) -> Option<(Seq<u8>, Seq<u8>)> {
    match (hex_bytes(kid), hex_bytes(key)) {
        (Some(id), Some(bytes)) => if id.len() == 16 {
            Some((id, bytes))
        } else {
            None
        },
        _ => None,
    }
}

/// A key that is written down reads back as itself; an id of another length is no id.
pub proof fn law_written_keys_read_back(kid: Seq<u8>, key: Seq<u8>)
    ensures
        kid.len() == 16 ==> key_in(hex_text(kid), hex_text(key)) == Some((kid, key)),
        kid.len() != 16 ==> key_in(hex_text(kid), hex_text(key)) is None,
{
    law_hex_reads_back(kid);
    law_hex_reads_back(key);
}

} // verus!
