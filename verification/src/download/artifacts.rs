//! Where covers come from: which image serves a size, and its address at that
//! size.

use vstd::prelude::*;
use vstd::string::StringExecFns;
use crate::json::member;
use crate::json::member_views;
use crate::json::text;
use crate::json::Json;
use crate::json::JsonView;
use crate::text::all_digits;
use crate::text::ascii_lower;
use crate::text::cat3;
use crate::text::cat5;
use crate::text::chars_of;
use crate::text::find_last;
use crate::text::last_at;
use crate::text::is_digit;
use crate::text::lemma_last_at;
use crate::text::lemma_last_at_is;
use crate::text::lowered;
use crate::text::opt_str;
use crate::text::opt_text;
use crate::text::parse_up_to;
use crate::text::same;
use crate::text::same_ignoring_ascii_case;
use crate::text::slice_text;
use crate::text::starts;
use crate::text::unsigned_value;

verus! {

/// Sizes up to this one come from a smaller source image than larger ones do.
pub const SMALL_MASTER_MAX: u32 = 500;

/// The word for the largest size there is.
pub const COVER_SIZE_NATIVE: &'static str = "native";

/// The sizes that the catalog is asked for: one of each source image.
pub const COVER_ANCHOR_SIZES: &'static str = "500,1215";

/// Whether a size needs the larger source image; nothing for a text that is no
/// size.
pub open spec fn wants_large(size: Seq<char>) -> Option<bool> {
    if lowered(size) == lowered(COVER_SIZE_NATIVE@) {
        Some(true)
    } else {
        match unsigned_value(size, u32::MAX as int) {
            Some(n) => Some(n > SMALL_MASTER_MAX),
            None => None,
        }
    }
}

/// Decides whether a size needs the larger source image.
pub fn wants_large_master(size: &str) -> (large: Option<bool>)
    ensures
        large == wants_large(size@),
{
    if same_ignoring_ascii_case(size, COVER_SIZE_NATIVE) {
        return Some(true);
    }
    match parse_up_to(size, u32::MAX as u64) {
        Some(n) => Some(n > SMALL_MASTER_MAX as u64),
        None => None,
    }
}

/// The image of a member: its size and its address.
pub open spec fn image(entry: (Seq<char>, JsonView)) -> Option<(u32, Seq<char>)> {
    match (unsigned_value(entry.0, u32::MAX as int), text(entry.1)) {
        (Some(px), Some(url)) => Some((px as u32, url)),
        _ => None,
    }
}

/// Whether a size is of the class that is looked for.
pub open spec fn in_class(px: u32, class: Class) -> bool {
    match class {
        Class::Small => px <= SMALL_MASTER_MAX,
        Class::Large => px > SMALL_MASTER_MAX,
        Class::Any => true,
    }
}

/// A class of image sizes.
#[derive(Clone, Copy, Debug, PartialEq, Eq, Structural)]
pub enum Class {
    /// Those of the smaller source image.
    Small,
    /// Those of the larger one.
    Large,
    /// All of them.
    Any,
}

/// The largest image of a class; of two that are equally large the later one.
pub open spec fn largest(entries: Seq<(Seq<char>, JsonView)>, class: Class) -> Option<
    (u32, Seq<char>),
>
    decreases entries.len(),
{
    if entries.len() == 0 {
        None
    } else {
        let front = largest(entries.drop_last(), class);
        match image(entries.last()) {
            Some((px, url)) => if in_class(px, class) && (front matches Some(best) ==> px
                >= best.0) {
                Some((px, url))
            } else {
                front
            },
            None => front,
        }
    }
}

/// The image that a size is derived from: for a large size the largest of the
/// larger source, or none; for a small one the largest of the smaller source,
/// or else any.
pub open spec fn anchor(entries: Seq<(Seq<char>, JsonView)>, large: bool) -> Option<Seq<char>> {
    let picked = if large {
        largest(entries, Class::Large)
    } else {
        match largest(entries, Class::Small) {
            Some(found) => Some(found),
            None => largest(entries, Class::Any),
        }
    };
    match picked {
        Some((_, url)) => Some(url),
        None => None,
    }
}

fn find_largest(images: &Vec<(String, Json)>, class: Class) -> (found: Option<&str>)
    ensures
        opt_str(found) == (match largest(member_views(images@), class) {
            Some((_, url)) => Some(url),
            None => None,
        }),
{
    let ghost all = member_views(images@);
    let mut found: Option<&str> = None;
    let mut best: u32 = 0;
    let mut i: usize = 0;
    assert(largest(all.subrange(0, 0), class) is None);
    while i < images.len()
        invariant
            i <= images@.len(),
            all == member_views(images@),
            match largest(all.subrange(0, i as int), class) {
                Some((px, url)) => found is Some && best == px && found->Some_0@ == url,
                None => found is None,
            },
        decreases images.len() - i,
    {
        assert(all.subrange(0, i + 1).drop_last() =~= all.subrange(0, i as int));
        assert(all.subrange(0, i + 1).last() == (images@[i as int].0@, images@[i as int].1@));
        match (parse_up_to(images[i].0.as_str(), u32::MAX as u64), images[i].1.as_str()) {
            (Some(n), Some(url)) => {
                let px: u32 = n as u32;
                let fits = match class {
                    Class::Small => px <= SMALL_MASTER_MAX,
                    Class::Large => px > SMALL_MASTER_MAX,
                    Class::Any => true,
                };
                if fits && (found.is_none() || px >= best) {
                    found = Some(url);
                    best = px;
                }
            },
            _ => {},
        }
        i = i + 1;
    }
    assert(all.subrange(0, i as int) =~= all);
    found
}

/// Picks the image that a size is derived from: the one that the API itself
/// would use. A large size is never derived from the smaller source.
pub fn anchor_url(images: &Vec<(String, Json)>, wants_large: bool) -> (url: Option<&str>)
    ensures
        opt_str(url) == anchor(member_views(images@), wants_large),
{
    if wants_large {
        find_largest(images, Class::Large)
    } else {
        match find_largest(images, Class::Small) {
            Some(url) => Some(url),
            None => find_largest(images, Class::Any),
        }
    }
}

/// Whether any image is there.
pub fn has_images(images: Option<&Vec<(String, Json)>>) -> (yes: bool)
    ensures
        yes == (images matches Some(list) && list@.len() > 0),
{
    match images {
        Some(list) => list.len() > 0,
        None => false,
    }
}

/// The text before and behind the last `c`; nothing when there is no `c`.
pub open spec fn rsplit_once_spec(s: Seq<char>, c: char) -> Option<(Seq<char>, Seq<char>)> {
    let i = last_at(s, c);
    if i >= 0 {
        Some((s.subrange(0, i), s.subrange(i + 1, s.len() as int)))
    } else {
        None
    }
}

fn rsplit_once(text: &str, c: char) -> (parts: Option<(String, String)>)
    ensures
        crate::text::opt_pair(parts) == rsplit_once_spec(text@, c),
{
    let chars = chars_of(text);
    let end: usize = chars.len();
    match find_last(&chars, c) {
        Some(i) => Some((slice_text(&chars, 0, i), slice_text(&chars, i + 1, end))),
        None => None,
    }
}

/// Whether a part of an address is a transform: set in underscores.
pub open spec fn is_block(part: Seq<char>) -> bool {
    part.len() > 0 && part[0] == '_' && part.last() == '_'
}

/// Whether a transform is the one that is understood: a size.
pub open spec fn is_size_block(block: Seq<char>) -> bool {
    let inner = block.subrange(1, block.len() - 1);
    &&& block.len() >= 2
    &&& starts(inner, "SL"@)
    &&& inner.len() > 2
    &&& all_digits(inner.subrange(2, inner.len() as int))
}

/// The address of an image at another size: `{id}[.{transform}].{extension}`
/// with the transform of that size, or without one for the largest. Nothing for
/// a transform that is not understood, whose other parts would be lost.
pub open spec fn at_size(url: Seq<char>, size: Seq<char>) -> Option<Seq<char>> {
    match rsplit_once_spec(url, '.') {
        None => None,
        Some((stem, extension)) => {
            let base = match rsplit_once_spec(stem, '.') {
                Some((front, block)) => if is_block(block) {
                    if is_size_block(block) {
                        Some(front)
                    } else {
                        None
                    }
                } else {
                    Some(stem)
                },
                None => Some(stem),
            };
            match base {
                None => None,
                Some(id) => Some(
                    if lowered(size) == lowered(COVER_SIZE_NATIVE@) {
                        id + "."@ + extension
                    } else {
                        id + "._SL"@ + size + "_."@ + extension
                    },
                ),
            }
        },
    }
}

fn size_block(block: &str) -> (yes: bool)
    requires
        is_block(block@),
    ensures
        yes == is_size_block(block@),
{
    let chars = chars_of(block);
    let end: usize = chars.len();
    let ghost inner = block@.subrange(1, block@.len() - 1);
    proof {
        reveal_strlit("SL");
        assert("SL"@ =~= seq!['S', 'L']);
    }
    if end < 5 || chars[1] != 'S' || chars[2] != 'L' {
        proof {
            if is_size_block(block@) {
                assert(inner.subrange(0, 2)[0] == 'S');
                assert(inner.subrange(0, 2)[1] == 'L');
                assert(inner[0] == chars@[1]);
                assert(inner[1] == chars@[2]);
            }
        }
        return false;
    }
    assert(inner.subrange(0, 2) =~= seq!['S', 'L']);
    let ghost digits = inner.subrange(2, inner.len() as int);
    let mut i: usize = 3;
    while i < end - 1
        invariant
            3 <= i <= end - 1,
            end == chars@.len(),
            chars@ == block@,
            inner == block@.subrange(1, block@.len() - 1),
            digits == inner.subrange(2, inner.len() as int),
            forall|k: int| 0 <= k < i - 3 ==> is_digit(#[trigger] digits[k]),
        decreases end - i,
    {
        let c = chars[i];
        assert(digits[i - 3] == c);
        if !('0' <= c && c <= '9') {
            assert(!all_digits(digits));
            return false;
        }
        i = i + 1;
    }
    assert(all_digits(digits));
    true
}

/// Restates the address of an image at a size, or at the largest.
pub fn rewrite_size_marker(url: &str, size: &str) -> (result: Option<String>)
    ensures
        opt_text(result) == at_size(url@, size@),
{
    let (stem, extension) = match rsplit_once(url, '.') {
        Some(parts) => parts,
        None => {
            return None;
        },
    };
    let base = match rsplit_once(stem.as_str(), '.') {
        Some((front, block)) => {
            let chars = chars_of(block.as_str());
            if chars.len() > 0 && chars[0] == '_' && chars[chars.len() - 1] == '_' {
                if !size_block(block.as_str()) {
                    return None;
                }
                front
            } else {
                stem
            }
        },
        None => stem,
    };
    if same_ignoring_ascii_case(size, COVER_SIZE_NATIVE) {
        Some(cat3(base.as_str(), ".", extension.as_str()))
    } else {
        Some(cat5(base.as_str(), "._SL", size, "_.", extension.as_str()))
    }
}

/// The address of the cover at a size: the image of just that size, or else one
/// derived from the image that serves it.
pub open spec fn cover_url(entries: Seq<(Seq<char>, JsonView)>, size: Seq<char>) -> Option<
    Seq<char>,
> {
    match exact(entries, size) {
        Some(url) => Some(url),
        None => match wants_large(size) {
            Some(large) => match anchor(entries, large) {
                Some(url) => at_size(url, size),
                None => None,
            },
            None => None,
        },
    }
}

/// The address of the image of just this size.
pub open spec fn exact(entries: Seq<(Seq<char>, JsonView)>, size: Seq<char>) -> Option<Seq<char>> {
    match member(entries, size) {
        Some(value) => text(value),
        None => None,
    }
}

proof fn lemma_largest_is_an_image(entries: Seq<(Seq<char>, JsonView)>, class: Class)
    ensures
        largest(entries, class) matches Some((px, url)) ==> {
            &&& in_class(px, class)
            &&& exists|i: int|
                0 <= i < entries.len() && image(#[trigger] entries[i]) == Some((px, url))
        },
        largest(entries, class) is None ==> forall|i: int|
            0 <= i < entries.len() ==> (image(#[trigger] entries[i]) matches Some((px, _))
                ==> !in_class(px, class)),
        forall|i: int|
            0 <= i < entries.len() ==> (image(#[trigger] entries[i]) matches Some((px, _)) ==> (
            in_class(px, class) ==> px <= largest(entries, class)->Some_0.0)),
    decreases entries.len(),
{
    if entries.len() > 0 {
        let front = entries.drop_last();
        lemma_largest_is_an_image(front, class);
        let n = entries.len() - 1;
        assert forall|i: int| 0 <= i < n implies entries[i] == #[trigger] front[i] by {}
        assert forall|i: int| 0 <= i < entries.len() implies (image(#[trigger] entries[i]) matches Some((px, _))
            ==> (in_class(px, class) ==> px <= largest(entries, class)->Some_0.0)) by {
            if i < n {
                assert(front[i] == entries[i]);
            }
        }
        if let Some((px, url)) = largest(entries, class) {
            if largest(entries, class) == image(entries[n]) {
            } else {
                let k = choose|i: int| 0 <= i < front.len() && image(#[trigger] front[i]) == Some((px, url));
                assert(image(entries[k]) == Some((px, url)));
            }
        } else {
            assert forall|i: int| 0 <= i < entries.len() implies (image(#[trigger] entries[i]) matches Some((px, _))
                ==> !in_class(px, class)) by {
                if i < n {
                    assert(front[i] == entries[i]);
                }
            }
        }
    }
}

/// Finds the address of the cover at a size among the images, without asking.
pub fn derive_cover_url(images: &Vec<(String, Json)>, size: &str) -> (url: Option<String>)
    ensures
        opt_text(url) == cover_url(member_views(images@), size@),
{
    let ghost all = member_views(images@);
    let mut i: usize = 0;
    let mut hit: Option<&str> = None;
    let mut found = false;
    assert(all.subrange(0, all.len() as int) =~= all);
    while i < images.len() && !found
        invariant
            i <= images@.len(),
            all == member_views(images@),
            !found ==> hit is None && member(all, size@) == member(
                all.subrange(i as int, all.len() as int),
                size@,
            ),
            found ==> opt_str(hit) == exact(all, size@),
        decreases images.len() - i + (if found {
            0int
        } else {
            1int
        }),
    {
        let ghost rest = all.subrange(i as int, all.len() as int);
        assert(rest[0] == (images@[i as int].0@, images@[i as int].1@));
        if same(images[i].0.as_str(), size) {
            hit = images[i].1.as_str();
            found = true;
        } else {
            assert(rest.drop_first() =~= all.subrange(i + 1, all.len() as int));
            i = i + 1;
        }
    }
    assert(opt_str(hit) == exact(all, size@));
    if let Some(url) = hit {
        return Some(String::from_str(url));
    }
    match wants_large_master(size) {
        None => None,
        Some(large) => match anchor_url(images, large) {
            None => None,
            Some(url) => rewrite_size_marker(url, size),
        },
    }
}

/// A large size is never derived from the smaller source image, whatever images
/// there are: it comes from the largest of the larger source, or not at all.
pub proof fn law_large_sizes_keep_to_the_large_source(
    entries: Seq<(Seq<char>, JsonView)>,
    size: Seq<char>,
    url: Seq<char>,
)
    requires
        wants_large(size) == Some(true),
        exact(entries, size) is None,
        cover_url(entries, size) == Some(url),
    ensures
        exists|i: int|
            0 <= i < entries.len() && (image(#[trigger] entries[i]) matches Some((px, source))
                && px > SMALL_MASTER_MAX && at_size(source, size) == Some(url)),
{
    lemma_largest_is_an_image(entries, Class::Large);
}

/// Two sets of images lead to the same address for a size where neither has the
/// size itself and both have the same largest image of each source.
pub proof fn law_same_anchors_same_cover(
    stored: Seq<(Seq<char>, JsonView)>,
    fetched: Seq<(Seq<char>, JsonView)>,
    size: Seq<char>,
)
    requires
        exact(stored, size) is None,
        exact(fetched, size) is None,
        largest(stored, Class::Small) == largest(fetched, Class::Small),
        largest(stored, Class::Small) is Some,
        largest(stored, Class::Large) == largest(fetched, Class::Large),
    ensures
        cover_url(stored, size) == cover_url(fetched, size),
{
}

proof fn lemma_rsplit(front: Seq<char>, c: char, back: Seq<char>)
    requires
        !back.contains(c),
    ensures
        rsplit_once_spec(front + seq![c] + back, c) == Some((front, back)),
{
    let whole = front + seq![c] + back;
    let at = front.len() as int;
    assert forall|k: int| at < k < whole.len() implies whole[k] != c by {
        assert(whole[k] == back[k - at - 1]);
    }
    lemma_last_at_is(whole, c, at);
    assert(whole.subrange(0, at) =~= front);
    assert(whole.subrange(at + 1, whole.len() as int) =~= back);
}

proof fn lemma_size_block(digits: Seq<char>)
    requires
        all_digits(digits),
        digits.len() > 0,
    ensures
        is_block(seq!['_', 'S', 'L'] + digits + seq!['_']),
        is_size_block(seq!['_', 'S', 'L'] + digits + seq!['_']),
        !(seq!['_', 'S', 'L'] + digits + seq!['_']).contains('.'),
{
    reveal_strlit("SL");
    assert("SL"@ =~= seq!['S', 'L']);
    let block = seq!['_', 'S', 'L'] + digits + seq!['_'];
    let inner = block.subrange(1, block.len() - 1);
    assert(inner =~= seq!['S', 'L'] + digits);
    assert(inner.subrange(0, 2) =~= seq!['S', 'L']);
    assert(inner.subrange(2, inner.len() as int) =~= digits);
    assert forall|k: int| 0 <= k < block.len() implies block[k] != '.' by {
        if 3 <= k < 3 + digits.len() {
            assert(block[k] == digits[k - 3]);
            assert(is_digit(digits[k - 3]));
        }
    }
}

proof fn lemma_digits_are_not_native(digits: Seq<char>)
    requires
        all_digits(digits),
        digits.len() > 0,
    ensures
        lowered(digits) != lowered(COVER_SIZE_NATIVE@),
{
    reveal_strlit("native");
    assert(lowered("native"@)[0] == ascii_lower("native"@[0]));
    assert("native"@[0] == 'n');
    assert(lowered(digits)[0] == ascii_lower(digits[0]));
    assert(is_digit(digits[0]));
}

proof fn lemma_last_part_has_no(s: Seq<char>, c: char)
    ensures
        rsplit_once_spec(s, c) matches Some((_, back)) ==> !back.contains(c),
{
    lemma_last_at(s, c);
    if let Some((_, back)) = rsplit_once_spec(s, c) {
        let i = last_at(s, c);
        assert forall|k: int| 0 <= k < back.len() implies back[k] != c by {
            assert(back[k] == s[i + 1 + k]);
        }
    }
}

/// The part of an address that stays the same at every size, and its extension.
pub open spec fn image_id(url: Seq<char>) -> Option<(Seq<char>, Seq<char>)> {
    match rsplit_once_spec(url, '.') {
        None => None,
        Some((stem, extension)) => match rsplit_once_spec(stem, '.') {
            Some((front, block)) => if is_block(block) {
                if is_size_block(block) {
                    Some((front, extension))
                } else {
                    None
                }
            } else {
                Some((stem, extension))
            },
            None => Some((stem, extension)),
        },
    }
}

proof fn lemma_restated_id(id: Seq<char>, extension: Seq<char>, digits: Seq<char>)
    requires
        all_digits(digits),
        digits.len() > 0,
        !extension.contains('.'),
    ensures
        image_id(id + "._SL"@ + digits + "_."@ + extension) == Some((id, extension)),
{
    reveal_strlit("._SL");
    reveal_strlit("_.");
    assert("._SL"@ =~= seq!['.', '_', 'S', 'L']);
    assert("_."@ =~= seq!['_', '.']);
    let block = seq!['_', 'S', 'L'] + digits + seq!['_'];
    let stem = id + seq!['.'] + block;
    lemma_size_block(digits);
    lemma_rsplit(id, '.', block);
    lemma_rsplit(stem, '.', extension);
    assert(id + "._SL"@ + digits + "_."@ + extension =~= stem + seq!['.'] + extension);
}

/// Restating an address at a size, and then at another, is restating it at the
/// other: the size of an address does not stick.
pub proof fn law_restating_forgets_the_size(url: Seq<char>, once: Seq<char>, twice: Seq<char>)
    requires
        all_digits(once),
        once.len() > 0,
        at_size(url, once) is Some,
    ensures
        at_size(at_size(url, once)->Some_0, twice) == at_size(url, twice),
{
    let (id, extension) = image_id(url)->Some_0;
    lemma_digits_are_not_native(once);
    lemma_last_part_has_no(url, '.');
    assert(at_size(url, once) == Some(id + "._SL"@ + once + "_."@ + extension));
    lemma_restated_id(id, extension, once);
}

/// Which source of images serves a size of a cover.
#[derive(Clone, Copy, Debug, PartialEq, Eq, Structural)]
pub enum CoverStep {
    /// An address was found.
    Found,
    /// The catalog is to be asked, once for all sizes.
    AskCatalog,
    /// There are images, and none serves this size.
    NotDerivable,
    /// There are no images at all.
    NoImages,
}

/// Which source of images serves a size of a cover.
pub open spec fn cover_source(found: bool, asked: bool, any_images: bool) -> CoverStep {
    if found {
        CoverStep::Found
    } else if !asked {
        CoverStep::AskCatalog
    } else if any_images {
        CoverStep::NotDerivable
    } else {
        CoverStep::NoImages
    }
}

/// Decides about a size of a cover: the stored images are tried first, then
/// those of the catalog, which is asked once.
pub fn cover_step(found: bool, asked: bool, any_images: bool) -> (step: CoverStep)
    ensures
        step == cover_source(found, asked, any_images),
{
    if found {
        CoverStep::Found
    } else if !asked {
        CoverStep::AskCatalog
    } else if any_images {
        CoverStep::NotDerivable
    } else {
        CoverStep::NoImages
    }
}

/// What to do about a companion PDF.
#[derive(Clone, Copy, Debug, PartialEq, Eq, Structural)]
pub enum PdfStep {
    /// There is none.
    Absent,
    /// Fetch it.
    Fetch,
    /// It was fetched.
    Fetched,
    /// The fetch failed.
    Failed,
}

/// What is done about a PDF, by what is known of it.
pub open spec fn pdf_first(flag: Option<bool>) -> PdfStep {
    if flag == Some(false) {
        PdfStep::Absent
    } else {
        PdfStep::Fetch
    }
}

/// Decides whether to fetch a PDF: not where the library says that there is
/// none.
pub fn pdf_step(flag: Option<bool>) -> (step: PdfStep)
    ensures
        step == pdf_first(flag),
{
    match flag {
        Some(false) => PdfStep::Absent,
        _ => PdfStep::Fetch,
    }
}

/// How the fetch of a PDF went.
#[derive(Clone, Copy, Debug, PartialEq, Eq, Structural)]
pub enum PdfAnswer {
    /// The PDF came.
    Pdf,
    /// Something of another type came.
    OtherType,
    /// The fetch failed.
    Failed,
}

/// What follows from the answer to the fetch of a PDF.
pub open spec fn pdf_next(flag: Option<bool>, answer: PdfAnswer) -> PdfStep {
    match answer {
        PdfAnswer::Pdf => PdfStep::Fetched,
        PdfAnswer::OtherType => if flag is None {
            PdfStep::Absent
        } else {
            PdfStep::Failed
        },
        PdfAnswer::Failed => PdfStep::Failed,
    }
}

/// Decides after the fetch: where the library does not know, an answer of
/// another type means that there is no PDF.
pub fn after_pdf(flag: Option<bool>, answer: PdfAnswer) -> (step: PdfStep)
    ensures
        step == pdf_next(flag, answer),
{
    match answer {
        PdfAnswer::Pdf => PdfStep::Fetched,
        PdfAnswer::OtherType => match flag {
            None => PdfStep::Absent,
            Some(_) => PdfStep::Failed,
        },
        PdfAnswer::Failed => PdfStep::Failed,
    }
}

/// Whether an artifact is passed over.
pub open spec fn is_passed_over(recorded: bool, force: bool, no_db_write: bool) -> bool {
    recorded && !force && !no_db_write
}

/// Whether an artifact that is recorded is passed over: not where it is to be
/// fetched anyway, nor in a run that leaves no trace, which heeds none either.
pub fn passes_over(recorded: bool, force: bool, no_db_write: bool) -> (yes: bool)
    ensures
        yes == is_passed_over(recorded, force, no_db_write),
{
    recorded && !force && !no_db_write
}

/// What is said of chapters that are passed over; `layout` is their layout.
pub fn chapters_note(layout: &str) -> (text: String)
    ensures
        text@ == "skipping chapter ("@ + layout@ + ") — already recorded (use --force)"@,
{
    cat3("skipping chapter (", layout, ") — already recorded (use --force)")
}

proof fn lemma_largest(entries: Seq<(Seq<char>, JsonView)>, class: Class)
    ensures
        match largest(entries, class) {
            Some((px, url)) => {
                &&& in_class(px, class)
                &&& exists|i: int|
                    0 <= i < entries.len() && image(#[trigger] entries[i]) == Some((px, url))
                &&& forall|k: int|
                    0 <= k < entries.len() ==> (image(#[trigger] entries[k]) matches Some((other, _))
                        ==> in_class(other, class) ==> other <= px)
            },
            None => forall|k: int|
                0 <= k < entries.len() ==> (image(#[trigger] entries[k]) matches Some((other, _))
                    ==> !in_class(other, class)),
        },
    decreases entries.len(),
{
    if entries.len() > 0 {
        let front = entries.drop_last();
        lemma_largest(front, class);
        assert forall|k: int| 0 <= k < front.len() implies (#[trigger] entries[k]) == front[k] by {}
        assert forall|k: int| 0 <= k < front.len() implies (#[trigger] front[k]) == entries[k] by {}
        let best = largest(entries, class);
        if best is Some && best == largest(front, class) {
            let i = choose|i: int|
                0 <= i < front.len() && image(#[trigger] front[i]) == largest(front, class);
            assert(image(entries[i]) == best);
        }
        assert(entries[entries.len() - 1] == entries.last());
    }
}

/// Whether an image is one of the given ones, and of its class none is larger.
pub open spec fn is_largest(
    entries: Seq<(Seq<char>, JsonView)>,
    px: u32,
    url: Seq<char>,
    large: bool,
) -> bool {
    &&& (px > 500) == large
    &&& exists|i: int| 0 <= i < entries.len() && image(#[trigger] entries[i]) == Some((px, url))
    &&& forall|k: int|
        0 <= k < entries.len() ==> (image(#[trigger] entries[k]) matches Some((other, _)) ==> (other
            > 500) == large ==> other <= px)
}

/// A size is derived from the largest image of its own source: those above 500
/// pixels have one source and those up to it another. A large size is derived
/// from no small image; a small one falls back to whatever there is.
pub proof fn law_sizes_are_derived_from_the_largest_image(
    entries: Seq<(Seq<char>, JsonView)>,
    large: bool,
)
    ensures
        (exists|k: int|
            0 <= k < entries.len() && (image(#[trigger] entries[k]) matches Some((px, _)) && (px
                > 500) == large)) ==> exists|px: u32, url: Seq<char>|
            #[trigger] is_largest(entries, px, url, large) && anchor(entries, large) == Some(url),
        large && (forall|k: int|
            0 <= k < entries.len() ==> (image(#[trigger] entries[k]) matches Some((px, _)) ==> px
                <= 500)) ==> anchor(entries, large) is None,
        !large && (exists|k: int|
            0 <= k < entries.len() && image(#[trigger] entries[k]) is Some) ==> anchor(
            entries,
            large,
        ) is Some,
{
    lemma_largest(entries, Class::Small);
    lemma_largest(entries, Class::Large);
    lemma_largest(entries, Class::Any);
    let class = if large {
        Class::Large
    } else {
        Class::Small
    };
    if let Some((px, url)) = largest(entries, class) {
        assert(is_largest(entries, px, url, large));
    }
}

/// A size needs the larger source exactly above 500 pixels; the largest there is
/// needs it too.
pub proof fn law_sizes_above_the_small_source_are_large(size: Seq<char>, n: int)
    ensures
        wants_large("native"@) == Some(true),
        all_digits(size) && size.len() > 0 && unsigned_value(size, u32::MAX as int) == Some(n)
            ==> wants_large(size) == Some(n > 500),
        wants_large(size) is None ==> unsigned_value(size, u32::MAX as int) is None,
{
    if all_digits(size) && size.len() > 0 {
        lemma_digits_are_not_native(size);
    }
}

/// The address of an image at a size is that of the image itself with the size
/// between its name and its extension, in place of the size that it had; at its
/// largest it has none.
pub proof fn law_sizes_stand_before_the_extension(
    id: Seq<char>,
    digits: Seq<char>,
    extension: Seq<char>,
    size: Seq<char>,
)
    requires
        all_digits(digits),
        digits.len() > 0,
        all_digits(size),
        size.len() > 0,
        !extension.contains('.'),
        !id.contains('.'),
    ensures
        at_size(id + "."@ + extension, size) == Some(id + "._SL"@ + size + "_."@ + extension),
        at_size(id + "._SL"@ + digits + "_."@ + extension, size) == Some(
            id + "._SL"@ + size + "_."@ + extension,
        ),
        at_size(id + "._SL"@ + digits + "_."@ + extension, "native"@) == Some(
            id + "."@ + extension,
        ),
{
    reveal_strlit(".");
    assert("."@ =~= seq!['.']);
    lemma_digits_are_not_native(size);
    lemma_restated_id(id, extension, digits);
    lemma_rsplit(id, '.', extension);
    assert forall|k: int| -1 < k < id.len() implies id[k] != '.' by {
        assert(id.contains(id[k]));
    }
    lemma_last_at_is(id, '.', -1);
    let url = id + "._SL"@ + digits + "_."@ + extension;
    assert(at_size(url, size) == match image_id(url) {
        Some((front, ext)) => Some(front + "._SL"@ + size + "_."@ + ext),
        None => None,
    });
}

/// An image of just the size that is asked for is taken as it is, whatever else
/// there is.
pub proof fn law_exact_sizes_are_taken(
    entries: Seq<(Seq<char>, JsonView)>,
    size: Seq<char>,
    url: Seq<char>,
)
    ensures
        exact(entries, size) == Some(url) ==> cover_url(entries, size) == Some(url),
        member(entries, size) == Some(JsonView::Text(url)) ==> cover_url(entries, size) == Some(url),
        cover_url(entries, size) is None && wants_large(size) is Some ==> anchor(
            entries,
            wants_large(size)->Some_0,
        ) is None || at_size(anchor(entries, wants_large(size)->Some_0)->Some_0, size) is None,
{
}

/// The catalog is asked once, and only for a cover that could not be derived without
/// it; what is said afterwards tells whether there were images at all.
pub proof fn law_the_catalog_is_asked_once(any_images: bool)
    ensures
        cover_source(true, false, any_images) is Found,
        cover_source(true, true, any_images) is Found,
        cover_source(false, false, any_images) is AskCatalog,
        cover_source(false, true, true) is NotDerivable,
        cover_source(false, true, false) is NoImages,
{
}

/// A PDF is fetched unless it is known that there is none; where that was not known, an
/// answer of another type says that there is none, and elsewhere it is a failure.
pub proof fn law_pdfs_are_fetched_where_there_may_be_one(flag: Option<bool>)
    ensures
        pdf_first(flag) is Fetch <==> flag != Some(false),
        pdf_first(flag) is Absent <==> flag == Some(false),
        pdf_next(flag, PdfAnswer::Pdf) is Fetched,
        pdf_next(None, PdfAnswer::OtherType) is Absent,
        flag is Some ==> pdf_next(flag, PdfAnswer::OtherType) is Failed,
        pdf_next(flag, PdfAnswer::Failed) is Failed,
{
}

/// An artifact that is recorded is passed over, unless it is to be fetched again or
/// the run leaves no trace.
pub proof fn law_recorded_artifacts_are_passed_over(recorded: bool, force: bool, no_db_write: bool)
    ensures
        is_passed_over(true, false, false),
        !recorded || force || no_db_write ==> !is_passed_over(recorded, force, no_db_write),
{
}

} // verus!
