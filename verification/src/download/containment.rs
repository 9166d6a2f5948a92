//! Keeping a run that leaves no trace out of the managed directory.

use vstd::prelude::*;
use vstd::string::StringExecFns;
use super::options::DownloadError;
use crate::paths::absolute;
use crate::paths::components;
use crate::paths::is_name;
use crate::paths::join_path;
use crate::paths::joined_path;
use crate::paths::lemma_joined_components;
use crate::paths::lies_within;
use crate::paths::path_components;
use crate::paths::within;
use crate::text::empty_text;
use crate::text::joined;
use crate::text::same;
use crate::text::texts;
use crate::text::opt_str;

verus! {

/// A directory with parts below it, one after the other.
pub open spec fn joined_all(base: Seq<char>, parts: Seq<Seq<char>>) -> Seq<char>
    decreases parts.len(),
{
    if parts.len() == 0 {
        base
    } else {
        joined_path(joined_all(base, parts.drop_last()), parts.last())
    }
}

fn join_all(base: &str, parts: &Vec<String>, from: usize, to: usize) -> (path: String)
    requires
        from <= to <= parts@.len(),
    ensures
        path@ == joined_all(base@, texts(parts@).subrange(from as int, to as int)),
{
    let ghost all = texts(parts@);
    let mut path = String::from_str(base);
    let mut i: usize = from;
    while i < to
        invariant
            from <= i <= to <= parts@.len(),
            all == texts(parts@),
            path@ == joined_all(base@, all.subrange(from as int, i as int)),
        decreases to - i,
    {
        proof {
            let next = all.subrange(from as int, i + 1);
            assert(next.drop_last() =~= all.subrange(from as int, i as int));
            assert(next.last() == parts@[i as int]@);
        }
        path = join_path(path.as_str(), parts[i].as_str());
        i = i + 1;
    }
    path
}

/// The search for the deepest part of a path that is there: it starts with the
/// whole path and drops one part after the other.
#[derive(Debug)]
pub struct Walk {
    /// The path.
    pub absolute: String,
    /// Its parts.
    pub parts: Vec<String>,
    /// How many of them are looked at.
    pub kept: usize,
}

/// What follows from looking at some parts of a path.
#[derive(Debug)]
pub enum WalkStep {
    /// The path resolves to this one.
    Resolved(String),
    /// Fewer parts are looked at.
    Again,
}

/// What follows from looking at some parts of a path, in texts.
pub enum WalkView {
    /// The path resolves to this one.
    Resolved(Seq<char>),
    /// Fewer parts are looked at.
    Again,
}

impl View for WalkStep {
    type V = WalkView;

    open spec fn view(&self) -> WalkView {
        match *self {
            WalkStep::Resolved(path) => WalkView::Resolved(path@),
            WalkStep::Again => WalkView::Again,
        }
    }
}

impl Walk {
    /// Whether the search is sound: it looks at parts of its path.
    pub open spec fn wf(&self) -> bool {
        texts(self.parts@) == components(self.absolute@) && self.kept <= self.parts@.len()
    }

    /// The parts that are looked at, as a path.
    pub open spec fn looked_at(&self) -> Seq<char> {
        joined_all(Seq::empty(), texts(self.parts@).subrange(0, self.kept as int))
    }

    /// What follows, given what the parts that are looked at resolve to. What
    /// is not there yet is put behind what is; where no part can be dropped any
    /// more, or the last leads upward, the path stands as it is.
    pub open spec fn after(&self, canonical: Option<Seq<char>>) -> WalkView {
        let parts = texts(self.parts@);
        match canonical {
            Some(base) => WalkView::Resolved(
                joined_all(base, parts.subrange(self.kept as int, parts.len() as int)),
            ),
            None => if self.kept <= 1 || parts[self.kept - 1] == ".."@ {
                WalkView::Resolved(self.absolute@)
            } else {
                WalkView::Again
            },
        }
    }

    /// Starts with the whole of a path.
    pub fn begin(absolute: &str) -> (walk: Walk)
        ensures
            walk.wf(),
            walk.absolute@ == absolute@,
            walk.kept == walk.parts@.len(),
    {
        let parts = path_components(absolute);
        let kept: usize = parts.len();
        Walk { absolute: String::from_str(absolute), parts, kept }
    }

    /// The parts that are looked at, as a path.
    pub fn ancestor(&self) -> (path: String)
        requires
            self.wf(),
        ensures
            path@ == self.looked_at(),
    {
        let empty = empty_text();
        join_all(empty.as_str(), &self.parts, 0, self.kept)
    }

    /// Goes on, given what the parts that are looked at resolve to; nothing
    /// where they are not there.
    pub fn advance(&mut self, canonical: Option<&str>) -> (step: WalkStep)
        requires
            old(self).wf(),
        ensures
            final(self).wf(),
            step@ == old(self).after(
                match canonical {
                    Some(base) => Some(base@),
                    None => None,
                },
            ),
            step is Again ==> final(self).kept == old(self).kept - 1,
            step is Resolved ==> final(self).kept == old(self).kept,
            final(self).absolute@ == old(self).absolute@,
            final(self).parts@ == old(self).parts@,
    {
        if let Some(base) = canonical {
            let path = join_all(base, &self.parts, self.kept, self.parts.len());
            assert(self.parts@.len() == texts(self.parts@).len());
            return WalkStep::Resolved(path);
        }
        if self.kept <= 1 {
            return WalkStep::Resolved(self.absolute.clone());
        }
        assert(texts(self.parts@)[self.kept - 1] == self.parts@[self.kept - 1]@);
        if same(self.parts[self.kept - 1].as_str(), "..") {
            return WalkStep::Resolved(self.absolute.clone());
        }
        self.kept = self.kept - 1;
        WalkStep::Again
    }
}

/// What is wrong with a place for files that leave no trace: it lies in the managed
/// directory.
pub open spec fn place_fault(resolved: Seq<char>, managed: Option<Seq<char>>) -> Option<
    DownloadError<Seq<char>>,
> {
    match managed {
        Some(dir) => if within(resolved, dir) {
            Some(DownloadError::InsideDownloadDir(dir))
        } else {
            None
        },
        None => None,
    }
}

/// Checks that a directory lies outside the managed one: neither is it that
/// directory, nor is it anywhere in it. Both are given as what they resolve to;
/// a managed directory that does not resolve cannot be in the way.
pub fn ensure_outside_download_dir(resolved: &str, managed: Option<&str>) -> (result: Result<
    (),
    DownloadError<String>,
>)
    ensures
        match result {
            Ok(_) => place_fault(resolved@, opt_str(managed)) is None,
            Err(e) => place_fault(resolved@, opt_str(managed)) == Some(e@),
        },
{
    if let Some(dir) = managed {
        if lies_within(resolved, dir) {
            return Err(DownloadError::InsideDownloadDir(String::from_str(dir)));
        }
    }
    Ok(())
}

proof fn lemma_joined_all(base: Seq<char>, names: Seq<Seq<char>>)
    requires
        absolute(base),
        forall|i: int| 0 <= i < names.len() ==> is_name(#[trigger] names[i]),
    ensures
        absolute(joined_all(base, names)),
        components(joined_all(base, names)) == components(base) + names,
    decreases names.len(),
{
    if names.len() == 0 {
        assert(components(base) + names =~= components(base));
    } else {
        let front = names.drop_last();
        assert forall|i: int| 0 <= i < front.len() implies is_name(#[trigger] front[i]) by {
            assert(front[i] == names[i]);
        }
        lemma_joined_all(base, front);
        let one = seq![names.last()];
        assert(is_name(names[names.len() - 1]));
        lemma_joined_components(joined_all(base, front), one);
        assert(joined(one, "/"@) == names.last());
        assert(components(base) + front + one =~= components(base) + names);
    }
}

/// A place that is not there yet is refused where any directory above it is the
/// managed one or lies in it: what is put behind what resolves cannot lead out.
pub proof fn law_new_places_stay_refused(base: Seq<char>, managed: Seq<char>, names: Seq<Seq<char>>)
    requires
        absolute(base),
        within(base, managed),
        forall|i: int| 0 <= i < names.len() ==> is_name(#[trigger] names[i]),
    ensures
        within(joined_all(base, names), managed),
{
    lemma_joined_all(base, names);
    let n = components(managed).len() as int;
    assert((components(base) + names).subrange(0, n) =~= components(base).subrange(0, n));
}

/// What a path comes to is the part of it that is there, as it resolves, with the
/// parts behind it that are not there yet; a path that leads upward from what is not
/// there, or of which nothing is there, stands as it is.
pub proof fn law_unmade_parts_are_put_behind(walk: Walk, base: Seq<char>)
    requires
        walk.wf(),
    ensures
        walk.kept == walk.parts@.len() ==> walk.after(Some(base)) == WalkView::Resolved(base),
        walk.kept < walk.parts@.len() ==> walk.after(Some(base)) == WalkView::Resolved(
            joined_path(
                joined_all(
                    base,
                    components(walk.absolute@).subrange(
                        walk.kept as int,
                        walk.parts@.len() - 1,
                    ),
                ),
                components(walk.absolute@).last(),
            ),
        ),
        walk.after(None) is Again <==> walk.kept > 1 && components(walk.absolute@)[walk.kept - 1]
            != ".."@,
        walk.after(None) is Resolved ==> walk.after(None) == WalkView::Resolved(walk.absolute@),
{
    let parts = components(walk.absolute@);
    let rest = parts.subrange(walk.kept as int, parts.len() as int);
    if rest.len() > 0 {
        assert(rest.drop_last() =~= parts.subrange(walk.kept as int, parts.len() - 1));
        assert(rest.last() == parts.last());
    }
}

/// Files that leave no trace are never put into the managed directory: it and every place
/// below it are refused, and no other place is.
pub proof fn law_the_managed_directory_is_refused(
    place: Seq<char>,
    managed: Seq<char>,
    below: Seq<char>,
)
    ensures
        place_fault(managed, Some(managed)) is Some,
        !absolute(below) ==> place_fault(joined_path(managed, below), Some(managed)) == Some(
            DownloadError::InsideDownloadDir(managed),
        ),
        place_fault(place, Some(managed)) is Some ==> within(place, managed),
        place_fault(place, None) is None,
{
    crate::paths::law_within_is_an_order(managed, managed, managed);
    crate::paths::law_joined_lies_within(managed, below);
}

/// What is looked at of a path is its parts up to a place, one joined behind the other:
/// one part more each is the next part in the directory of those before it.
pub proof fn law_walks_look_at_the_parts_in_front(walk: Walk, more: Walk)
    requires
        walk.wf(),
        more.wf(),
        walk.absolute@ == more.absolute@,
        more.kept == walk.kept + 1,
    ensures
        more.looked_at() == joined_path(
            walk.looked_at(),
            components(walk.absolute@)[walk.kept as int],
        ),
        walk.kept == 0 ==> walk.looked_at().len() == 0,
{
    let parts = components(walk.absolute@);
    let front = parts.subrange(0, more.kept as int);
    assert(front.drop_last() =~= parts.subrange(0, walk.kept as int));
    assert(front.last() == parts[walk.kept as int]);
}

} // verus!
