//! What a download could fetch for an item, and what is there already.

use vstd::prelude::*;
use vstd::string::StringExecFns;
use vstd::utf8::encode_utf8;
use crate::db::DownloadEntry;
use crate::json::document;
use crate::json::field;
use crate::json::flag_field;
use crate::json::list_field;
use crate::json::member_views;
use crate::json::text_field;
use crate::json::views;
use crate::json::whole_field;
use crate::json::Json;
use crate::json::JsonView;
use crate::tables::cells;
use crate::tables::push_row;
use crate::tables::row4;
use crate::text::cat2;
use crate::text::cat3;
use crate::text::decimal;
use crate::text::join;
use crate::text::joined;
use crate::text::lowered;
use crate::text::number;
use crate::text::opt_text;
use crate::text::parse_up_to;
use crate::text::same;
use crate::text::same_ignoring_ascii_case;
use crate::text::starts;
use crate::text::starts_with;
use crate::text::texts;
use crate::text::to_lower;
use crate::text::unicode_lower;
use crate::text::unsigned_value;
use crate::units::binary_bytes;
use crate::units::show_bytes;

verus! {

/// What is known of an item without asking: from its library document or its
/// catalog product.
#[derive(Debug)]
pub struct AssetFacts {
    /// The announced codecs, in their order.
    pub codecs: Vec<String>,
    /// The cover sizes, the smallest first.
    pub image_sizes: Vec<u32>,
    /// Whether it has a PDF; nothing where the source cannot know.
    pub pdf_available: Option<bool>,
    /// Whether it may be used offline.
    pub offline_right: Option<bool>,
    /// How it is delivered.
    pub delivery_type: Option<String>,
}

/// The codec names of a list of codecs.
pub open spec fn codec_names(list: Seq<JsonView>) -> Seq<Seq<char>>
    decreases list.len(),
{
    if list.len() == 0 {
        Seq::empty()
    } else {
        match text_field(list.last(), "name"@) {
            Some(name) => codec_names(list.drop_last()).push(name),
            None => codec_names(list.drop_last()),
        }
    }
}

/// The announced codecs of an item.
pub open spec fn codecs_of(item: JsonView) -> Seq<Seq<char>> {
    match list_field(item, "available_codecs"@) {
        Some(list) => codec_names(list),
        None => Seq::empty(),
    }
}

/// The numbers that the names of members are.
pub open spec fn number_names(members: Seq<(Seq<char>, JsonView)>) -> Seq<u32>
    decreases members.len(),
{
    if members.len() == 0 {
        Seq::empty()
    } else {
        match unsigned_value(members.last().0, u32::MAX as int) {
            Some(n) => number_names(members.drop_last()).push(n as u32),
            None => number_names(members.drop_last()),
        }
    }
}

/// The cover sizes of an item, in the order of its document.
pub open spec fn sizes_of(item: JsonView) -> Seq<u32> {
    match field(item, "product_images"@) {
        Some(JsonView::Object(members)) => number_names(members),
        _ => Seq::empty(),
    }
}

/// Whether the numbers do not fall.
pub open spec fn rising(list: Seq<u32>) -> bool {
    forall|i: int, j: int| 0 <= i <= j < list.len() ==> list[i] <= list[j]
}

/// Whether an item has a PDF: its flag says so, or else an address of the PDF.
pub open spec fn pdf_of(item: JsonView) -> Option<bool> {
    match flag_field(item, "is_pdf_url_available"@) {
        Some(flag) => Some(flag),
        None => match text_field(item, "pdf_url"@) {
            Some(_) => Some(true),
            None => None,
        },
    }
}

/// Whether an item may be used offline.
pub open spec fn offline_of(item: JsonView) -> Option<bool> {
    match field(item, "customer_rights"@) {
        Some(rights) => flag_field(rights, "is_consumable_offline"@),
        None => None,
    }
}

fn codecs(item: &Json) -> (names: Vec<String>)
    ensures
        texts(names@) == codecs_of(item@),
{
    let mut names: Vec<String> = Vec::new();
    if let Some(list) = item.get_array("available_codecs") {
        let ghost all = views(list@);
        let mut i: usize = 0;
        assert(texts(names@) =~= codec_names(all.subrange(0, 0)));
        while i < list.len()
            invariant
                i <= list@.len(),
                all == views(list@),
                texts(names@) == codec_names(all.subrange(0, i as int)),
            decreases list.len() - i,
        {
            let ghost front = all.subrange(0, i + 1);
            let ghost before = texts(names@);
            assert(front.drop_last() =~= all.subrange(0, i as int));
            assert(front.last() == list@[i as int]@);
            if let Some(name) = list[i].get_str("name") {
                names.push(String::from_str(name));
                assert(texts(names@) =~= before.push(name@));
            }
            i = i + 1;
        }
        assert(all.subrange(0, i as int) =~= all);
    } else {
        assert(texts(names@) =~= Seq::<Seq<char>>::empty());
    }
    names
}

fn insert_rising(list: &mut Vec<u32>, n: u32)
    requires
        rising(old(list)@),
    ensures
        rising(final(list)@),
        final(list)@.to_multiset() == old(list)@.to_multiset().insert(n),
{
    let ghost before = list@;
    let mut i: usize = list.len();
    while i > 0 && list[i - 1] > n
        invariant
            i <= list@.len(),
            list@ == before,
            rising(before),
            forall|k: int| i <= k < list@.len() ==> n < list@[k],
        decreases i,
    {
        i = i - 1;
    }
    list.insert(i, n);
    proof {
        let front = before.subrange(0, i as int);
        let back = before.subrange(i as int, before.len() as int);
        assert(front + back =~= before);
        assert(list@ =~= front.push(n) + back);
        broadcast use vstd::seq_lib::group_to_multiset_ensures;

        vstd::seq_lib::lemma_multiset_commutative(front, back);
        vstd::seq_lib::lemma_multiset_commutative(front.push(n), back);
        assert(list@.to_multiset() =~= before.to_multiset().insert(n));
    }
}

fn image_sizes(item: &Json) -> (sizes: Vec<u32>)
    ensures
        rising(sizes@),
        sizes@.to_multiset() == sizes_of(item@).to_multiset(),
{
    let mut sizes: Vec<u32> = Vec::new();
    let images = match item.get("product_images") {
        Some(value) => value.as_object(),
        None => None,
    };
    if let Some(members) = images {
        let ghost all = member_views(members@);
        let mut i: usize = 0;
        assert(sizes@ =~= number_names(all.subrange(0, 0)));
        while i < members.len()
            invariant
                i <= members@.len(),
                all == member_views(members@),
                rising(sizes@),
                sizes@.to_multiset() == number_names(all.subrange(0, i as int)).to_multiset(),
            decreases members.len() - i,
        {
            let ghost front = all.subrange(0, i + 1);
            assert(front.drop_last() =~= all.subrange(0, i as int));
            assert(front.last() == (members@[i as int].0@, members@[i as int].1@));
            if let Some(n) = parse_up_to(members[i].0.as_str(), u32::MAX as u64) {
                insert_rising(&mut sizes, n as u32);
                proof {
                    broadcast use vstd::seq_lib::group_to_multiset_ensures;

                }
            }
            i = i + 1;
        }
        assert(all.subrange(0, i as int) =~= all);
    }
    sizes
}

/// Whether these are the facts that a document states of its item.
pub open spec fn are_facts(fact: AssetFacts, item: JsonView) -> bool {
    &&& texts(fact.codecs@) == codecs_of(item)
    &&& rising(fact.image_sizes@)
    &&& fact.image_sizes@.to_multiset() == sizes_of(item).to_multiset()
    &&& fact.pdf_available == pdf_of(item)
    &&& fact.offline_right == offline_of(item)
    &&& opt_text(fact.delivery_type) == text_field(item, "content_delivery_type"@)
}

/// Takes what is known of an item from the text of its document; nothing where
/// the text is no document.
pub fn parse_doc(doc: &str) -> (fact: Option<AssetFacts>)
    ensures
        match fact {
            Some(fact) => document(encode_utf8(doc@)) is Some && are_facts(
                fact,
                document(encode_utf8(doc@))->Some_0,
            ),
            None => document(encode_utf8(doc@)) is None,
        },
{
    let bytes = doc.as_bytes_vec();
    match Json::parse(bytes.as_slice()) {
        Some(item) => Some(facts(&item)),
        None => None,
    }
}

/// Takes what is known of an item from its document.
pub fn facts(item: &Json) -> (fact: AssetFacts)
    ensures
        are_facts(fact, item@),
{
    let pdf_available = match item.get_bool("is_pdf_url_available") {
        Some(flag) => Some(flag),
        None => match item.get_str("pdf_url") {
            Some(_) => Some(true),
            None => None,
        },
    };
    let offline_right = match item.get("customer_rights") {
        Some(rights) => rights.get_bool("is_consumable_offline"),
        None => None,
    };
    let delivery_type = match item.get_str("content_delivery_type") {
        Some(kind) => Some(String::from_str(kind)),
        None => None,
    };
    AssetFacts {
        codecs: codecs(item),
        image_sizes: image_sizes(item),
        pdf_available,
        offline_right,
        delivery_type,
    }
}

/// Which kind of protection the content metadata were answered for.
#[derive(Clone, Copy, Debug, PartialEq, Eq, Structural)]
pub enum MetadataDrm {
    /// The portable format: its asset exists.
    Adrm,
    /// Widevine: the portable format was rejected.
    Widevine,
}

/// How a content metadata request went.
#[derive(Clone, Copy, Debug, PartialEq, Eq, Structural)]
pub enum Probe {
    /// The server answered with the metadata.
    Answered,
    /// The server rejected the request.
    Rejected,
    /// The request did not get through.
    Transient,
}

/// What is known of the protection after a probe.
#[derive(Clone, Copy, Debug, PartialEq, Eq, Structural)]
pub enum ProbeStep {
    /// The metadata are there, for this protection.
    Known(MetadataDrm),
    /// Ask again, for Widevine.
    TryWidevine,
    /// Give up: there are no metadata.
    Unavailable,
}

/// What follows from the probe for the portable format.
pub open spec fn adrm_next(probe: Probe) -> ProbeStep {
    match probe {
        Probe::Answered => ProbeStep::Known(MetadataDrm::Adrm),
        Probe::Rejected => ProbeStep::TryWidevine,
        Probe::Transient => ProbeStep::Unavailable,
    }
}

/// Decides after the probe for the portable format: only a definite rejection
/// leads on to Widevine, so that a network fault does not make a title look
/// like a Widevine one.
pub fn after_adrm(probe: Probe) -> (step: ProbeStep)
    ensures
        step == adrm_next(probe),
{
    match probe {
        Probe::Answered => ProbeStep::Known(MetadataDrm::Adrm),
        Probe::Rejected => ProbeStep::TryWidevine,
        Probe::Transient => ProbeStep::Unavailable,
    }
}

/// What follows from the probe for Widevine.
pub open spec fn widevine_next(probe: Probe) -> ProbeStep {
    match probe {
        Probe::Answered => ProbeStep::Known(MetadataDrm::Widevine),
        _ => ProbeStep::Unavailable,
    }
}

/// Decides after the probe for Widevine.
pub fn after_widevine(probe: Probe) -> (step: ProbeStep)
    ensures
        step == widevine_next(probe),
{
    match probe {
        Probe::Answered => ProbeStep::Known(MetadataDrm::Widevine),
        _ => ProbeStep::Unavailable,
    }
}

/// Whether content metadata are asked for: not for a show, which has no audio.
pub fn wants_metadata(fact: &AssetFacts) -> (wants: bool)
    ensures
        wants == (opt_text(fact.delivery_type) != Some("Periodical"@)),
{
    match &fact.delivery_type {
        Some(kind) => !same(kind.as_str(), "Periodical"),
        None => true,
    }
}

/// A text, or a dash where it is empty.
pub open spec fn or_dash(s: Seq<char>) -> Seq<char> {
    if s.len() == 0 {
        "-"@
    } else {
        s
    }
}

/// A text, or a dash where it is empty.
pub fn show_or_dash(text: &str) -> (shown: String)
    ensures
        shown@ == or_dash(text@),
{
    if text.is_empty() {
        String::from_str("-")
    } else {
        String::from_str(text)
    }
}

/// The size of a file in brackets, behind a space; nothing where it is unknown.
pub open spec fn size_note(size: Option<u64>) -> Seq<char> {
    match size {
        Some(n) => " ("@ + binary_bytes(n) + ")"@,
        None => Seq::empty(),
    }
}

fn show_size(size: Option<u64>) -> (note: String)
    ensures
        note@ == size_note(size),
{
    match size {
        Some(n) => cat3(" (", show_bytes(n).as_str(), ")"),
        None => String::new(),
    }
}

/// How a recorded download is shown: audio by its variant, all else by its
/// format.
pub open spec fn download_cell(entry: DownloadEntry) -> Seq<char> {
    (if entry.kind@ == "audio"@ {
        entry.variant@
    } else {
        or_dash(entry.content_format@)
    }) + size_note(entry.file_size)
}

/// Whether a record is of a kind, and, where one is given, of a format.
pub open spec fn of_kind(entry: DownloadEntry, kind: Seq<char>, format: Option<Seq<char>>) -> bool {
    &&& entry.kind@ == kind
    &&& match format {
        Some(f) => lowered(entry.content_format@) == lowered(f),
        None => true,
    }
}

/// The cells of the records of a kind and format.
pub open spec fn download_cells(
    entries: Seq<DownloadEntry>,
    kind: Seq<char>,
    format: Option<Seq<char>>,
) -> Seq<Seq<char>>
    decreases entries.len(),
{
    if entries.len() == 0 {
        Seq::empty()
    } else if of_kind(entries.last(), kind, format) {
        download_cells(entries.drop_last(), kind, format).push(download_cell(entries.last()))
    } else {
        download_cells(entries.drop_last(), kind, format)
    }
}

/// What is there of a kind and format; a dash for nothing.
pub open spec fn downloaded(
    entries: Seq<DownloadEntry>,
    kind: Seq<char>,
    format: Option<Seq<char>>,
) -> Seq<char> {
    let list = download_cells(entries, kind, format);
    if list.len() == 0 {
        "-"@
    } else {
        joined(list, "; "@)
    }
}

fn show_downloaded(entries: &Vec<DownloadEntry>, kind: &str, format: Option<&str>) -> (text: String)
    ensures
        text@ == downloaded(
            entries@,
            kind@,
            match format {
                Some(f) => Some(f@),
                None => None,
            },
        ),
{
    let ghost wanted = match format {
        Some(f) => Some(f@),
        None => None,
    };
    let mut list: Vec<String> = Vec::new();
    let mut i: usize = 0;
    assert(texts(list@) =~= download_cells(entries@.subrange(0, 0), kind@, wanted));
    while i < entries.len()
        invariant
            i <= entries@.len(),
            wanted == (match format {
                Some(f) => Some(f@),
                None => None,
            }),
            texts(list@) == download_cells(entries@.subrange(0, i as int), kind@, wanted),
        decreases entries.len() - i,
    {
        let entry = &entries[i];
        let ghost before = texts(list@);
        assert(entries@.subrange(0, i + 1).drop_last() =~= entries@.subrange(0, i as int));
        let fits = match format {
            Some(f) => same_ignoring_ascii_case(entry.content_format.as_str(), f),
            None => true,
        };
        if same(entry.kind.as_str(), kind) && fits {
            let name = if same(entry.kind.as_str(), "audio") {
                entry.variant.clone()
            } else {
                show_or_dash(entry.content_format.as_str())
            };
            let cell = cat2(name.as_str(), show_size(entry.file_size).as_str());
            list.push(cell);
            assert(texts(list@) =~= before.push(download_cell(*entry)));
        }
        i = i + 1;
    }
    assert(entries@.subrange(0, i as int) =~= entries@);
    if list.len() == 0 {
        String::from_str("-")
    } else {
        join(&list, "; ")
    }
}

/// The reference to the content in an item's metadata.
pub open spec fn reference(metadata: Option<(JsonView, MetadataDrm)>) -> JsonView {
    match metadata {
        Some((value, _)) => match field(value, "content_reference"@) {
            Some(found) => found,
            None => JsonView::Null,
        },
        None => JsonView::Null,
    }
}

/// The format that the metadata name; empty where they name none.
pub open spec fn reference_format(metadata: Option<(JsonView, MetadataDrm)>) -> Seq<char> {
    match text_field(reference(metadata), "content_format"@) {
        Some(format) => format,
        None => Seq::empty(),
    }
}

/// The size that the metadata name.
pub open spec fn reference_size(metadata: Option<(JsonView, MetadataDrm)>) -> Option<int> {
    whole_field(reference(metadata), "content_size_in_bytes"@)
}

/// A size, or `yes` where it is unknown.
pub open spec fn size_or_yes(size: Option<int>) -> Seq<char> {
    match size {
        Some(n) => binary_bytes(n as u64),
        None => "yes"@,
    }
}

/// Whether the metadata came for Widevine only.
pub open spec fn widevine_only(metadata: Option<(JsonView, MetadataDrm)>) -> bool {
    metadata matches Some((_, drm)) && drm is Widevine
}

/// Whether a codec is one of the portable formats.
pub open spec fn is_aax(codec: Seq<char>) -> bool {
    starts(codec, "aax"@)
}

/// Whether a portable format is announced.
pub open spec fn has_aax(codecs: Seq<Seq<char>>) -> bool {
    exists|i: int| 0 <= i < codecs.len() && is_aax(#[trigger] codecs[i])
}

/// How a Widevine representation is named.
pub open spec fn widevine_name(format: Seq<char>) -> Seq<char> {
    if format.len() == 0 {
        "widevine (aac|xhe)"@
    } else {
        "widevine ("@ + unicode_lower(format) + ")"@
    }
}

/// A codec and the quality option that asks for it.
pub open spec fn codec_detail(codec: Seq<char>) -> Seq<char> {
    if codec == "aax_44_128"@ {
        codec + " (-q high)"@
    } else if codec == "aax_44_64"@ {
        codec + " (-q normal)"@
    } else {
        codec
    }
}

/// The row of an announced codec.
pub open spec fn codec_row(
    codec: Seq<char>,
    metadata: Option<(JsonView, MetadataDrm)>,
    entries: Seq<DownloadEntry>,
) -> Seq<Seq<char>> {
    seq![
        "audio"@,
        codec_detail(codec),
        if lowered(codec) == lowered(reference_format(metadata)) {
            size_or_yes(reference_size(metadata))
        } else {
            "yes"@
        },
        downloaded(entries, "audio"@, Some(codec)),
    ]
}

/// The row of an announced codec that has no asset.
pub open spec fn absent_row(codec: Seq<char>, entries: Seq<DownloadEntry>) -> Seq<Seq<char>> {
    seq![
        "audio"@,
        codec,
        "no (widevine only)"@,
        downloaded(entries, "audio"@, Some(codec)),
    ]
}

/// The rows of announced codecs without an asset.
pub open spec fn absent_rows(codecs: Seq<Seq<char>>, entries: Seq<DownloadEntry>) -> Seq<
    Seq<Seq<char>>,
>
    decreases codecs.len(),
{
    if codecs.len() == 0 {
        Seq::empty()
    } else if is_aax(codecs.last()) {
        absent_rows(codecs.drop_last(), entries).push(absent_row(codecs.last(), entries))
    } else {
        absent_rows(codecs.drop_last(), entries)
    }
}

/// The row of the Widevine representation that the metadata name.
pub open spec fn reference_row(
    metadata: Option<(JsonView, MetadataDrm)>,
    entries: Seq<DownloadEntry>,
) -> Seq<Seq<char>> {
    seq![
        "audio"@,
        widevine_name(reference_format(metadata)),
        size_or_yes(reference_size(metadata)),
        downloaded(entries, "audio"@, None),
    ]
}

/// Whether the item is a podcast show.
pub open spec fn is_parent(fact: AssetFacts) -> bool {
    opt_text(fact.delivery_type) == Some("Periodical"@)
}

/// Whether the item is a podcast episode.
pub open spec fn is_episode(fact: AssetFacts) -> bool {
    opt_text(fact.delivery_type) == Some("PodcastEpisode"@)
}

/// The audio rows: one for each announced codec, and the Widevine
/// representation where that is what there is.
pub open spec fn audio_rows(
    fact: AssetFacts,
    metadata: Option<(JsonView, MetadataDrm)>,
    entries: Seq<DownloadEntry>,
) -> Seq<Seq<Seq<char>>> {
    let codecs = texts(fact.codecs@);
    if is_parent(fact) {
        seq![seq!["audio"@, "podcast parent"@, "episodes only"@, "-"@]]
    } else if has_aax(codecs) && !widevine_only(metadata) {
        codecs.map_values(|codec: Seq<char>| codec_row(codec, metadata, entries))
    } else if has_aax(codecs) {
        absent_rows(codecs, entries).push(reference_row(metadata, entries))
    } else if is_episode(fact) {
        seq![
            seq![
                "audio"@,
                "mpeg (podcast episode)"@,
                "yes"@,
                downloaded(entries, "audio"@, None),
            ],
        ]
    } else if widevine_only(metadata) {
        seq![reference_row(metadata, entries)]
    } else {
        seq![
            seq![
                "audio"@,
                "widevine (aac|xhe)"@,
                if fact.offline_right == Some(false) {
                    "streaming only"@
                } else {
                    "streaming only?"@
                },
                downloaded(entries, "audio"@, None),
            ],
        ]
    }
}

/// Whether a format is one of the announced codecs, whatever the case.
pub open spec fn claimed(format: Seq<char>, codecs: Seq<Seq<char>>) -> bool {
    exists|i: int| 0 <= i < codecs.len() && lowered(#[trigger] codecs[i]) == lowered(format)
}

/// The row of an audio record that no codec claims.
pub open spec fn unclaimed_row(entry: DownloadEntry) -> Seq<Seq<char>> {
    seq![
        "audio"@,
        or_dash(entry.content_format@),
        "-"@,
        entry.variant@ + size_note(entry.file_size),
    ]
}

/// The rows of the audio records that no codec claims.
pub open spec fn unclaimed_rows(entries: Seq<DownloadEntry>, codecs: Seq<Seq<char>>) -> Seq<
    Seq<Seq<char>>,
>
    decreases entries.len(),
{
    if entries.len() == 0 {
        Seq::empty()
    } else {
        let before = unclaimed_rows(entries.drop_last(), codecs);
        if entries.last().kind@ == "audio"@ && !claimed(entries.last().content_format@, codecs) {
            before.push(unclaimed_row(entries.last()))
        } else {
            before
        }
    }
}

/// The audio records that have a row of their own: only where the rows of the
/// codecs leave some out.
pub open spec fn extra_rows(
    fact: AssetFacts,
    metadata: Option<(JsonView, MetadataDrm)>,
    entries: Seq<DownloadEntry>,
) -> Seq<Seq<Seq<char>>> {
    if is_episode(fact) || is_parent(fact) || widevine_only(metadata) || !has_aax(
        texts(fact.codecs@),
    ) {
        Seq::empty()
    } else {
        unclaimed_rows(entries, texts(fact.codecs@))
    }
}

/// The row of the covers, with their sizes.
pub open spec fn cover_rows(fact: AssetFacts, entries: Seq<DownloadEntry>) -> Seq<Seq<Seq<char>>> {
    if fact.image_sizes@.len() == 0 {
        Seq::empty()
    } else {
        seq![
            seq![
                "cover"@,
                joined(fact.image_sizes@.map_values(|n: u32| decimal(n as int)), ","@),
                "yes"@,
                downloaded(entries, "cover"@, None),
            ],
        ]
    }
}

/// The chapters that the metadata list.
pub open spec fn chapter_list(metadata: Option<(JsonView, MetadataDrm)>) -> Option<Seq<JsonView>> {
    match metadata {
        Some((value, _)) => match field(value, "chapter_info"@) {
            Some(info) => list_field(info, "chapters"@),
            None => None,
        },
        None => None,
    }
}

/// The row of the chapters; a show has none.
pub open spec fn chapter_rows(
    fact: AssetFacts,
    metadata: Option<(JsonView, MetadataDrm)>,
    entries: Seq<DownloadEntry>,
) -> Seq<Seq<Seq<char>>> {
    if is_parent(fact) {
        Seq::empty()
    } else {
        seq![
            seq![
                "chapter"@,
                "flat|tree"@,
                match chapter_list(metadata) {
                    Some(list) => decimal(list.len() as int) + " chapters"@,
                    None => "?"@,
                },
                downloaded(entries, "chapter"@, None),
            ],
        ]
    }
}

/// The row of the PDF.
pub open spec fn pdf_row(fact: AssetFacts, entries: Seq<DownloadEntry>) -> Seq<Seq<char>> {
    seq![
        "pdf"@,
        "companion"@,
        match fact.pdf_available {
            Some(true) => "yes"@,
            Some(false) => "no"@,
            None => "?"@,
        },
        downloaded(entries, "pdf"@, None),
    ]
}

/// The rows of an item: kind, detail, what is available, what is there.
pub open spec fn asset_rows(
    fact: AssetFacts,
    metadata: Option<(JsonView, MetadataDrm)>,
    entries: Seq<DownloadEntry>,
) -> Seq<Seq<Seq<char>>> {
    (audio_rows(fact, metadata, entries) + extra_rows(fact, metadata, entries) + cover_rows(
        fact,
        entries,
    ) + chapter_rows(fact, metadata, entries)).push(pdf_row(fact, entries))
}

/// The metadata of an item, as it is read.
pub open spec fn metadata_view(metadata: Option<&(Json, MetadataDrm)>) -> Option<
    (JsonView, MetadataDrm),
> {
    match metadata {
        Some(pair) => Some((pair.0@, pair.1)),
        None => None,
    }
}

fn announces_aax(codecs: &Vec<String>) -> (yes: bool)
    ensures
        yes == has_aax(texts(codecs@)),
{
    let mut i: usize = 0;
    while i < codecs.len()
        invariant
            i <= codecs@.len(),
            forall|k: int| 0 <= k < i ==> !is_aax(#[trigger] texts(codecs@)[k]),
        decreases codecs.len() - i,
    {
        assert(texts(codecs@)[i as int] == codecs@[i as int]@);
        if starts_with(codecs[i].as_str(), "aax") {
            return true;
        }
        i = i + 1;
    }
    false
}

fn claims(codecs: &Vec<String>, format: &str) -> (yes: bool)
    ensures
        yes == claimed(format@, texts(codecs@)),
{
    let mut i: usize = 0;
    while i < codecs.len()
        invariant
            i <= codecs@.len(),
            forall|k: int|
                0 <= k < i ==> lowered(#[trigger] texts(codecs@)[k]) != lowered(format@),
        decreases codecs.len() - i,
    {
        assert(texts(codecs@)[i as int] == codecs@[i as int]@);
        if same_ignoring_ascii_case(codecs[i].as_str(), format) {
            return true;
        }
        i = i + 1;
    }
    false
}

fn is_delivered_as(fact: &AssetFacts, kind: &str) -> (yes: bool)
    ensures
        yes == (opt_text(fact.delivery_type) == Some(kind@)),
{
    match &fact.delivery_type {
        Some(delivery) => same(delivery.as_str(), kind),
        None => false,
    }
}

/// The format and the size that the metadata name, and the size as it is shown.
fn read_reference(metadata: Option<&(Json, MetadataDrm)>) -> (result: (String, String))
    ensures
        result.0@ == reference_format(metadata_view(metadata)),
        result.1@ == size_or_yes(reference_size(metadata_view(metadata))),
{
    let found = match metadata {
        Some(pair) => pair.0.get("content_reference"),
        None => None,
    };
    let (format, size) = match found {
        Some(value) => (
            value.get_str("content_format"),
            value.get_u64("content_size_in_bytes"),
        ),
        None => (None, None),
    };
    let format = match format {
        Some(text) => String::from_str(text),
        None => String::new(),
    };
    let size = match size {
        Some(n) => show_bytes(n),
        None => String::from_str("yes"),
    };
    (format, size)
}

fn show_widevine(format: &str) -> (name: String)
    ensures
        name@ == widevine_name(format@),
{
    if format.is_empty() {
        String::from_str("widevine (aac|xhe)")
    } else {
        cat3("widevine (", to_lower(format).as_str(), ")")
    }
}

fn show_codec(codec: &str) -> (detail: String)
    ensures
        detail@ == codec_detail(codec@),
{
    if same(codec, "aax_44_128") {
        cat2(codec, " (-q high)")
    } else if same(codec, "aax_44_64") {
        cat2(codec, " (-q normal)")
    } else {
        String::from_str(codec)
    }
}

fn audio_row(detail: String, available: String, there: String) -> (row: Vec<String>)
    ensures
        texts(row@) == seq!["audio"@, detail@, available@, there@],
{
    row4(String::from_str("audio"), detail, available, there)
}

fn list_codecs(
    codecs: &Vec<String>,
    metadata: Option<&(Json, MetadataDrm)>,
    entries: &Vec<DownloadEntry>,
) -> (rows: Vec<Vec<String>>)
    ensures
        cells(rows@) == texts(codecs@).map_values(
            |codec: Seq<char>| codec_row(codec, metadata_view(metadata), entries@),
        ),
{
    let ghost want = texts(codecs@).map_values(
        |codec: Seq<char>| codec_row(codec, metadata_view(metadata), entries@),
    );
    let (format, size) = read_reference(metadata);
    let mut rows: Vec<Vec<String>> = Vec::new();
    let mut i: usize = 0;
    while i < codecs.len()
        invariant
            i <= codecs@.len(),
            want == texts(codecs@).map_values(
                |codec: Seq<char>| codec_row(codec, metadata_view(metadata), entries@),
            ),
            format@ == reference_format(metadata_view(metadata)),
            size@ == size_or_yes(reference_size(metadata_view(metadata))),
            cells(rows@).len() == i,
            forall|k: int| 0 <= k < i ==> #[trigger] cells(rows@)[k] == want[k],
        decreases codecs.len() - i,
    {
        let codec = codecs[i].as_str();
        let available = if same_ignoring_ascii_case(codec, format.as_str()) {
            size.clone()
        } else {
            String::from_str("yes")
        };
        let row = audio_row(
            show_codec(codec),
            available,
            show_downloaded(entries, "audio", Some(codec)),
        );
        assert(texts(row@) == codec_row(codec@, metadata_view(metadata), entries@));
        push_row(&mut rows, row);
        i = i + 1;
    }
    assert(cells(rows@) =~= want);
    rows
}

fn list_absent(codecs: &Vec<String>, entries: &Vec<DownloadEntry>) -> (rows: Vec<Vec<String>>)
    ensures
        cells(rows@) == absent_rows(texts(codecs@), entries@),
{
    let ghost all = texts(codecs@);
    let mut rows: Vec<Vec<String>> = Vec::new();
    let mut i: usize = 0;
    assert(cells(rows@) =~= absent_rows(all.subrange(0, 0), entries@));
    while i < codecs.len()
        invariant
            i <= codecs@.len(),
            all == texts(codecs@),
            cells(rows@) == absent_rows(all.subrange(0, i as int), entries@),
        decreases codecs.len() - i,
    {
        let codec = codecs[i].as_str();
        assert(all.subrange(0, i + 1).drop_last() =~= all.subrange(0, i as int));
        if starts_with(codec, "aax") {
            let row = audio_row(
                String::from_str(codec),
                String::from_str("no (widevine only)"),
                show_downloaded(entries, "audio", Some(codec)),
            );
            assert(texts(row@) == absent_row(codec@, entries@));
            push_row(&mut rows, row);
        }
        i = i + 1;
    }
    assert(all.subrange(0, i as int) =~= all);
    rows
}

fn list_reference(metadata: Option<&(Json, MetadataDrm)>, entries: &Vec<DownloadEntry>) -> (row: Vec<
    String,
>)
    ensures
        texts(row@) == reference_row(metadata_view(metadata), entries@),
{
    let (format, size) = read_reference(metadata);
    audio_row(show_widevine(format.as_str()), size, show_downloaded(entries, "audio", None))
}

fn list_audio(
    fact: &AssetFacts,
    metadata: Option<&(Json, MetadataDrm)>,
    entries: &Vec<DownloadEntry>,
) -> (rows: Vec<Vec<String>>)
    ensures
        cells(rows@) == audio_rows(*fact, metadata_view(metadata), entries@),
{
    let widevine = match metadata {
        Some(pair) => pair.1 == MetadataDrm::Widevine,
        None => false,
    };
    let aax = announces_aax(&fact.codecs);
    let ghost want = audio_rows(*fact, metadata_view(metadata), entries@);
    let mut rows: Vec<Vec<String>> = Vec::new();
    if is_delivered_as(fact, "Periodical") {
        push_row(
            &mut rows,
            audio_row(
                String::from_str("podcast parent"),
                String::from_str("episodes only"),
                String::from_str("-"),
            ),
        );
        assert(cells(rows@) =~= want);
    } else if aax && !widevine {
        rows = list_codecs(&fact.codecs, metadata, entries);
    } else if aax {
        rows = list_absent(&fact.codecs, entries);
        push_row(&mut rows, list_reference(metadata, entries));
    } else if is_delivered_as(fact, "PodcastEpisode") {
        push_row(
            &mut rows,
            audio_row(
                String::from_str("mpeg (podcast episode)"),
                String::from_str("yes"),
                show_downloaded(entries, "audio", None),
            ),
        );
        assert(cells(rows@) =~= want);
    } else if widevine {
        push_row(&mut rows, list_reference(metadata, entries));
        assert(cells(rows@) =~= want);
    } else {
        let available = match fact.offline_right {
            Some(false) => String::from_str("streaming only"),
            _ => String::from_str("streaming only?"),
        };
        push_row(
            &mut rows,
            audio_row(
                String::from_str("widevine (aac|xhe)"),
                available,
                show_downloaded(entries, "audio", None),
            ),
        );
        assert(cells(rows@) =~= want);
    }
    rows
}

fn list_unclaimed(
    rows: &mut Vec<Vec<String>>,
    entries: &Vec<DownloadEntry>,
    codecs: &Vec<String>,
)
    ensures
        cells(final(rows)@) == cells(old(rows)@) + unclaimed_rows(entries@, texts(codecs@)),
{
    let ghost before = cells(rows@);
    let ghost names = texts(codecs@);
    let mut i: usize = 0;
    assert(before + unclaimed_rows(entries@.subrange(0, 0), names) =~= before);
    while i < entries.len()
        invariant
            i <= entries@.len(),
            names == texts(codecs@),
            cells(rows@) == before + unclaimed_rows(entries@.subrange(0, i as int), names),
        decreases entries.len() - i,
    {
        let entry = &entries[i];
        let ghost done = unclaimed_rows(entries@.subrange(0, i as int), names);
        assert(entries@.subrange(0, i + 1).drop_last() =~= entries@.subrange(0, i as int));
        if same(entry.kind.as_str(), "audio") && !claims(codecs, entry.content_format.as_str()) {
            let row = audio_row(
                show_or_dash(entry.content_format.as_str()),
                String::from_str("-"),
                cat2(entry.variant.as_str(), show_size(entry.file_size).as_str()),
            );
            assert(texts(row@) == unclaimed_row(*entry));
            push_row(rows, row);
            assert((before + done).push(unclaimed_row(*entry)) =~= before + done.push(
                unclaimed_row(*entry),
            ));
        }
        i = i + 1;
    }
    assert(entries@.subrange(0, i as int) =~= entries@);
}

fn show_numbers(sizes: &Vec<u32>) -> (text: String)
    ensures
        text@ == joined(sizes@.map_values(|n: u32| decimal(n as int)), ","@),
{
    let ghost want = sizes@.map_values(|n: u32| decimal(n as int));
    let mut list: Vec<String> = Vec::new();
    let mut i: usize = 0;
    while i < sizes.len()
        invariant
            i <= sizes@.len(),
            want == sizes@.map_values(|n: u32| decimal(n as int)),
            list@.len() == i,
            forall|k: int| 0 <= k < i ==> (#[trigger] list@[k])@ == want[k],
        decreases sizes.len() - i,
    {
        list.push(number(sizes[i] as u64));
        i = i + 1;
    }
    assert(texts(list@) =~= want);
    join(&list, ",")
}

/// Builds the rows of an item (kind, detail, what is available, what is there)
/// from what is known of it, its metadata where they were answered, and the
/// recorded downloads.
pub fn item_rows(
    fact: &AssetFacts,
    metadata: Option<&(Json, MetadataDrm)>,
    entries: &Vec<DownloadEntry>,
) -> (rows: Vec<Vec<String>>)
    ensures
        cells(rows@) == asset_rows(*fact, metadata_view(metadata), entries@),
{
    let ghost meta = metadata_view(metadata);
    let widevine = match metadata {
        Some(pair) => pair.1 == MetadataDrm::Widevine,
        None => false,
    };
    let parent = is_delivered_as(fact, "Periodical");
    let mut rows = list_audio(fact, metadata, entries);
    let ghost audio = cells(rows@);
    if is_delivered_as(fact, "PodcastEpisode") || parent || widevine || !announces_aax(
        &fact.codecs,
    ) {
        assert(audio + extra_rows(*fact, meta, entries@) =~= audio);
    } else {
        list_unclaimed(&mut rows, entries, &fact.codecs);
    }
    let ghost with_extra = cells(rows@);
    assert(with_extra == audio + extra_rows(*fact, meta, entries@));
    if fact.image_sizes.len() > 0 {
        push_row(
            &mut rows,
            row4(
                String::from_str("cover"),
                show_numbers(&fact.image_sizes),
                String::from_str("yes"),
                show_downloaded(entries, "cover", None),
            ),
        );
    }
    let ghost with_cover = cells(rows@);
    assert(with_cover =~= with_extra + cover_rows(*fact, entries@));
    if !parent {
        let chapters = match metadata {
            Some(pair) => match pair.0.get("chapter_info") {
                Some(info) => info.get_array("chapters"),
                None => None,
            },
            None => None,
        };
        let available = match chapters {
            Some(list) => cat2(number(list.len() as u64).as_str(), " chapters"),
            None => String::from_str("?"),
        };
        assert(available@ == match chapter_list(meta) {
            Some(list) => decimal(list.len() as int) + " chapters"@,
            None => "?"@,
        });
        let row = row4(
            String::from_str("chapter"),
            String::from_str("flat|tree"),
            available,
            show_downloaded(entries, "chapter", None),
        );
        assert(chapter_rows(*fact, meta, entries@)[0] =~= texts(row@));
        assert(chapter_rows(*fact, meta, entries@) =~= seq![texts(row@)]);
        push_row(&mut rows, row);
    }
    assert(cells(rows@) =~= with_cover + chapter_rows(*fact, meta, entries@));
    let pdf = match fact.pdf_available {
        Some(true) => String::from_str("yes"),
        Some(false) => String::from_str("no"),
        None => String::from_str("?"),
    };
    let row = row4(
        String::from_str("pdf"),
        String::from_str("companion"),
        pdf,
        show_downloaded(entries, "pdf", None),
    );
    assert(texts(row@) == pdf_row(*fact, entries@));
    push_row(&mut rows, row);
    rows
}

/// The codecs of an item are the names in its list of codecs, its cover sizes the
/// names of its images that are numbers, all of them; whether it has a PDF says its
/// flag, or else an address of the PDF; and whether it may be used offline say its
/// rights.
pub proof fn law_facts_are_those_of_the_document(
    list: Seq<JsonView>,
    codec: JsonView,
    members: Seq<(Seq<char>, JsonView)>,
    member: (Seq<char>, JsonView),
    item: JsonView,
)
    ensures
        codec_names(list.push(codec)) == match text_field(codec, "name"@) {
            Some(name) => codec_names(list).push(name),
            None => codec_names(list),
        },
        codec_names(Seq::empty()).len() == 0,
        number_names(members.push(member)) == match unsigned_value(member.0, u32::MAX as int) {
            Some(n) => number_names(members).push(n as u32),
            None => number_names(members),
        },
        number_names(Seq::empty()).len() == 0,
        field(item, "available_codecs"@) == Some(JsonView::Array(list)) ==> codecs_of(item)
            == codec_names(list),
        field(item, "product_images"@) == Some(JsonView::Object(members)) ==> sizes_of(item)
            == number_names(members),
        flag_field(item, "is_pdf_url_available"@) matches Some(flag) ==> pdf_of(item) == Some(flag),
        flag_field(item, "is_pdf_url_available"@) is None && text_field(item, "pdf_url"@) is Some
            ==> pdf_of(item) == Some(true),
        flag_field(item, "is_pdf_url_available"@) is None && text_field(item, "pdf_url"@) is None
            ==> pdf_of(item) is None,
        field(item, "customer_rights"@) matches Some(rights) ==> offline_of(item) == flag_field(
            rights,
            "is_consumable_offline"@,
        ),
{
    assert(list.push(codec).drop_last() =~= list);
    assert(members.push(member).drop_last() =~= members);
}

/// What is there of a kind is every record of that kind, and of the format where one
/// is given, whatever the case of its letters, in order; a dash stands for nothing.
pub proof fn law_downloads_are_shown_by_kind(
    entries: Seq<DownloadEntry>,
    entry: DownloadEntry,
    kind: Seq<char>,
    format: Option<Seq<char>>,
)
    ensures
        download_cells(entries.push(entry), kind, format) == if entry.kind@ == kind && (format
            matches Some(f) ==> lowered(entry.content_format@) == lowered(f)) {
            download_cells(entries, kind, format).push(download_cell(entry))
        } else {
            download_cells(entries, kind, format)
        },
        download_cells(Seq::empty(), kind, format).len() == 0,
        download_cells(entries, kind, format).len() == 0 ==> downloaded(entries, kind, format)
            == "-"@,
        download_cells(entries, kind, format).len() > 0 ==> downloaded(entries, kind, format)
            == joined(download_cells(entries, kind, format), "; "@),
        entry.kind@ == "audio"@ ==> download_cell(entry) == entry.variant@ + size_note(
            entry.file_size,
        ),
        entry.kind@ != "audio"@ && entry.content_format@.len() > 0 ==> download_cell(entry)
            == entry.content_format@ + size_note(entry.file_size),
        entry.file_size is None ==> size_note(entry.file_size).len() == 0,
        entry.file_size matches Some(n) ==> size_note(entry.file_size) == " ("@ + binary_bytes(n)
            + ")"@,
{
    assert(entries.push(entry).drop_last() =~= entries);
}

/// Every announced codec of a book in the portable format has a row, in order, which
/// says of what size the format is that the metadata name, and what is there of it.
pub proof fn law_every_codec_has_a_row(
    fact: AssetFacts,
    metadata: Option<(JsonView, MetadataDrm)>,
    entries: Seq<DownloadEntry>,
    i: int,
)
    requires
        0 <= i < fact.codecs@.len(),
        opt_text(fact.delivery_type) != Some("Periodical"@),
        exists|k: int| 0 <= k < fact.codecs@.len() && starts(#[trigger] texts(fact.codecs@)[k], "aax"@),
        metadata is None || metadata->Some_0.1 is Adrm,
    ensures
        audio_rows(fact, metadata, entries).len() == fact.codecs@.len(),
        ({
            let codec = fact.codecs@[i]@;
            let row = audio_rows(fact, metadata, entries)[i];
            &&& row.len() == 4
            &&& row[0] == "audio"@
            &&& codec == "aax_44_128"@ ==> row[1] == codec + " (-q high)"@
            &&& codec == "aax_44_64"@ ==> row[1] == codec + " (-q normal)"@
            &&& codec != "aax_44_128"@ && codec != "aax_44_64"@ ==> row[1] == codec
            &&& lowered(codec) != lowered(reference_format(metadata)) ==> row[2] == "yes"@
            &&& lowered(codec) == lowered(reference_format(metadata)) ==> row[2] == size_or_yes(
                reference_size(metadata),
            )
            &&& row[3] == downloaded(entries, "audio"@, Some(codec))
        }),
{
    let codecs = texts(fact.codecs@);
    let k = choose|k: int| 0 <= k < codecs.len() && starts(#[trigger] codecs[k], "aax"@);
    assert(is_aax(codecs[k]));
    assert(codecs[i] == fact.codecs@[i]@);
    reveal_strlit("aax_44_128");
    reveal_strlit("aax_44_64");
    assert("aax_44_128"@.len() == 10);
    assert("aax_44_64"@.len() == 9);
}

/// Audio that is streamed only is told as such, a show as one that has episodes only,
/// and an episode as one that can be had; what is known of a Widevine format is
/// shown in a row of its own.
pub proof fn law_other_audio_is_told_apart(
    fact: AssetFacts,
    metadata: Option<(JsonView, MetadataDrm)>,
    entries: Seq<DownloadEntry>,
)
    ensures
        opt_text(fact.delivery_type) == Some("Periodical"@) ==> audio_rows(fact, metadata, entries)
            == seq![seq!["audio"@, "podcast parent"@, "episodes only"@, "-"@]] && chapter_rows(
            fact,
            metadata,
            entries,
        ).len() == 0,
        opt_text(fact.delivery_type) == Some("PodcastEpisode"@) && fact.codecs@.len() == 0
            ==> audio_rows(fact, metadata, entries)[0][2] == "yes"@,
        fact.delivery_type is None && fact.codecs@.len() == 0 && metadata is None ==> audio_rows(
            fact,
            metadata,
            entries,
        )[0][2] == if fact.offline_right == Some(false) {
            "streaming only"@
        } else {
            "streaming only?"@
        },
        fact.delivery_type is None && fact.codecs@.len() == 0 && (metadata matches Some((_, drm))
            && drm is Widevine) ==> audio_rows(fact, metadata, entries) == seq![
            seq![
                "audio"@,
                widevine_name(reference_format(metadata)),
                size_or_yes(reference_size(metadata)),
                downloaded(entries, "audio"@, None),
            ],
        ],
{
    reveal_strlit("Periodical");
    reveal_strlit("PodcastEpisode");
    assert("Periodical"@.len() == 10);
    assert("PodcastEpisode"@.len() == 14);
}

/// No audio record is hidden: one whose format is none of the announced codecs has a
/// row of its own.
pub proof fn law_unclaimed_records_have_a_row(
    entries: Seq<DownloadEntry>,
    entry: DownloadEntry,
    codecs: Seq<Seq<char>>,
)
    ensures
        unclaimed_rows(entries.push(entry), codecs) == if entry.kind@ == "audio"@ && forall|i: int|
            0 <= i < codecs.len() ==> lowered(#[trigger] codecs[i]) != lowered(
                entry.content_format@,
            ) {
            unclaimed_rows(entries, codecs).push(unclaimed_row(entry))
        } else {
            unclaimed_rows(entries, codecs)
        },
        unclaimed_rows(Seq::empty(), codecs).len() == 0,
        entry.content_format@.len() > 0 ==> unclaimed_row(entry) == seq![
            "audio"@,
            entry.content_format@,
            "-"@,
            entry.variant@ + size_note(entry.file_size),
        ],
{
    assert(entries.push(entry).drop_last() =~= entries);
    if claimed(entry.content_format@, codecs) {
        let i = choose|i: int|
            0 <= i < codecs.len() && lowered(#[trigger] codecs[i]) == lowered(
                entry.content_format@,
            );
        assert(lowered(codecs[i]) == lowered(entry.content_format@));
    }
}

/// An item has rows for its audio, its covers with all their sizes, its chapters
/// and its PDF, in this order.
pub proof fn law_items_have_rows_for_all_they_have(
    fact: AssetFacts,
    metadata: Option<(JsonView, MetadataDrm)>,
    entries: Seq<DownloadEntry>,
)
    ensures
        ({
            let rows = asset_rows(fact, metadata, entries);
            let audio = audio_rows(fact, metadata, entries);
            let extra = extra_rows(fact, metadata, entries);
            let covers = cover_rows(fact, entries);
            let chapters = chapter_rows(fact, metadata, entries);
            &&& rows.subrange(0, audio.len() as int) == audio
            &&& rows.len() == audio.len() + extra.len() + covers.len() + chapters.len() + 1
            &&& rows.last()[0] == "pdf"@
            &&& fact.pdf_available == Some(true) ==> rows.last()[2] == "yes"@
            &&& fact.pdf_available == Some(false) ==> rows.last()[2] == "no"@
            &&& fact.pdf_available is None ==> rows.last()[2] == "?"@
            &&& rows.last()[3] == downloaded(entries, "pdf"@, None)
            &&& fact.image_sizes@.len() > 0 ==> covers.len() == 1 && covers[0] == seq![
                "cover"@,
                joined(fact.image_sizes@.map_values(|n: u32| decimal(n as int)), ","@),
                "yes"@,
                downloaded(entries, "cover"@, None),
            ]
            &&& fact.image_sizes@.len() == 0 ==> covers.len() == 0
            &&& opt_text(fact.delivery_type) != Some("Periodical"@) ==> chapters.len() == 1
                && chapters[0][0] == "chapter"@ && chapters[0][3] == downloaded(
                entries,
                "chapter"@,
                None,
            ) && (chapter_list(metadata) matches Some(list) ==> chapters[0][2] == decimal(
                list.len() as int,
            ) + " chapters"@)
        }),
{
    let rows = asset_rows(fact, metadata, entries);
    let audio = audio_rows(fact, metadata, entries);
    assert(rows.subrange(0, audio.len() as int) =~= audio);
}

/// Only a definite rejection leads on to Widevine, and only an answer makes the
/// protection known.
pub proof fn law_faults_do_not_make_a_title_widevine(probe: Probe)
    ensures
        adrm_next(probe) is TryWidevine <==> probe is Rejected,
        adrm_next(probe) == ProbeStep::Known(MetadataDrm::Adrm) <==> probe is Answered,
        widevine_next(probe) == ProbeStep::Known(MetadataDrm::Widevine) <==> probe is Answered,
        !(probe is Answered) ==> widevine_next(probe) is Unavailable,
        probe is Transient ==> adrm_next(probe) is Unavailable,
{
}

/// What is known of an item is what its document says: its codecs in order, its cover sizes
/// from the smallest on, none of them lost, whether it has a PDF, whether it may be used
/// offline, and how it is delivered.
pub proof fn law_facts_are_complete(fact: AssetFacts, item: JsonView, size: u32, i: int)
    requires
        are_facts(fact, item),
    ensures
        texts(fact.codecs@) == codecs_of(item),
        fact.image_sizes@.contains(size) <==> sizes_of(item).contains(size),
        0 < i < fact.image_sizes@.len() ==> fact.image_sizes@[i - 1] <= fact.image_sizes@[i],
        fact.image_sizes@.len() == sizes_of(item).len(),
        fact.pdf_available == pdf_of(item),
        fact.offline_right == offline_of(item),
        opt_text(fact.delivery_type) == text_field(item, "content_delivery_type"@),
{
    broadcast use vstd::seq_lib::group_to_multiset_ensures;

    let sizes = fact.image_sizes@;
    let all = sizes_of(item);
    assert(sizes.to_multiset().count(size) == all.to_multiset().count(size));
    assert(sizes.to_multiset().len() == sizes.len());
    assert(all.to_multiset().len() == all.len());
}

} // verus!
