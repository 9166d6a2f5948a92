//! File paths as texts whose parts are set off by slashes.

use vstd::prelude::*;
use vstd::string::StringExecFns;
use crate::lists::push_text;
use crate::text::cat2;
use crate::text::cat3;
use crate::text::chars_of;
use crate::text::empty_text;
use crate::text::find_last;
use crate::text::first_at;
use crate::text::joined;
use crate::text::last_at;
use crate::text::lemma_first_at;
use crate::text::lemma_first_at_is;
use crate::text::lemma_last_at;
use crate::text::lemma_last_at_is;
use crate::text::opt_text;
use crate::text::same;
use crate::text::slice_text;
use crate::text::split;
use crate::text::split_all;
use crate::text::texts;

verus! {

/// Whether the path starts at the root.
pub open spec fn absolute(path: Seq<char>) -> bool {
    path.len() > 0 && path[0] == '/'
}

/// A path seen from a directory: one that starts at the root stands for itself.
pub open spec fn joined_path(dir: Seq<char>, path: Seq<char>) -> Seq<char> {
    if absolute(path) {
        path
    } else if dir.len() == 0 || dir.last() == '/' {
        dir + path
    } else {
        dir + "/"@ + path
    }
}

/// Tests whether a path starts at the root.
pub fn is_absolute(path: &str) -> (yes: bool)
    ensures
        yes == absolute(path@),
{
    let chars = chars_of(path);
    chars.len() > 0 && chars[0] == '/'
}

/// The path seen from a directory.
pub fn join_path(dir: &str, path: &str) -> (result: String)
    ensures
        result@ == joined_path(dir@, path@),
{
    if is_absolute(path) {
        return String::from_str(path);
    }
    let chars = chars_of(dir);
    if chars.len() == 0 || chars[chars.len() - 1] == '/' {
        cat2(dir, path)
    } else {
        cat3(dir, "/", path)
    }
}

/// The parts of a path that name something: neither empty nor a dot.
pub open spec fn named_parts(segments: Seq<Seq<char>>) -> Seq<Seq<char>>
    decreases segments.len(),
{
    if segments.len() == 0 {
        Seq::empty()
    } else {
        let front = named_parts(segments.drop_last());
        if segments.last().len() == 0 || segments.last() == seq!['.'] {
            front
        } else {
            front.push(segments.last())
        }
    }
}

/// The components of a path: the root where it starts there, a dot where it
/// starts with one, and the parts that name something. Two texts with the same
/// components are the same path.
pub open spec fn components(path: Seq<char>) -> Seq<Seq<char>> {
    let parts = named_parts(split_all(path, '/'));
    if absolute(path) {
        seq![seq!['/']] + parts
    } else if split_all(path, '/')[0] == seq!['.'] {
        seq![seq!['.']] + parts
    } else {
        parts
    }
}

/// Whether a path lies in a directory, or is the directory.
pub open spec fn within(path: Seq<char>, dir: Seq<char>) -> bool {
    let base = components(dir);
    base.len() <= components(path).len() && components(path).subrange(0, base.len() as int) == base
}

fn is_dot(text: &str) -> (yes: bool)
    ensures
        yes == (text@ == seq!['.']),
{
    let chars = chars_of(text);
    let yes = chars.len() == 1 && chars[0] == '.';
    assert(yes ==> text@ =~= seq!['.']);
    yes
}

/// The components of a path.
pub fn path_components(path: &str) -> (parts: Vec<String>)
    ensures
        texts(parts@) == components(path@),
{
    let segments = split(path, '/');
    let ghost all = texts(segments@);
    let mut parts: Vec<String> = Vec::new();
    proof {
        lemma_split_parts(path@, '/');
        assert(all[0] == segments@[0]@);
    }
    if is_absolute(path) {
        let mut root = String::new();
        root.push('/');
        assert(root@ =~= seq!['/']);
        push_text(&mut parts, root);
    } else if is_dot(segments[0].as_str()) {
        push_text(&mut parts, segments[0].clone());
    }
    let ghost head = texts(parts@);
    let mut i: usize = 0;
    assert(head + named_parts(all.subrange(0, 0)) =~= head);
    while i < segments.len()
        invariant
            i <= segments@.len(),
            all == texts(segments@),
            texts(parts@) == head + named_parts(all.subrange(0, i as int)),
        decreases segments.len() - i,
    {
        let ghost front = named_parts(all.subrange(0, i as int));
        assert(all.subrange(0, i + 1).drop_last() =~= all.subrange(0, i as int));
        assert(all.subrange(0, i + 1).last() == segments@[i as int]@);
        if !segments[i].as_str().is_empty() && !is_dot(segments[i].as_str()) {
            push_text(&mut parts, segments[i].clone());
            assert((head + front).push(segments@[i as int]@) =~= head + front.push(
                segments@[i as int]@,
            ));
        }
        i = i + 1;
    }
    assert(all.subrange(0, i as int) =~= all);
    assert(texts(parts@) =~= components(path@)) by {
        assert(Seq::<Seq<char>>::empty() + named_parts(all) =~= named_parts(all));
    }
    parts
}

/// Whether two lists hold the same texts.
pub fn same_list(a: &Vec<String>, b: &Vec<String>) -> (yes: bool)
    ensures
        yes == (texts(a@) == texts(b@)),
{
    if a.len() != b.len() {
        assert(texts(a@).len() != texts(b@).len());
        return false;
    }
    let mut i: usize = 0;
    while i < a.len()
        invariant
            i <= a@.len() == b@.len(),
            forall|k: int| 0 <= k < i ==> (#[trigger] texts(a@)[k]) == texts(b@)[k],
        decreases a.len() - i,
    {
        if !same(a[i].as_str(), b[i].as_str()) {
            assert(texts(a@)[i as int] != texts(b@)[i as int]);
            return false;
        }
        i = i + 1;
    }
    assert(texts(a@) =~= texts(b@));
    true
}

/// Whether two texts are the same path.
pub fn same_path(a: &str, b: &str) -> (yes: bool)
    ensures
        yes == (components(a@) == components(b@)),
{
    same_list(&path_components(a), &path_components(b))
}

/// Whether a path lies in a directory, or is the directory.
pub fn lies_within(path: &str, dir: &str) -> (yes: bool)
    ensures
        yes == within(path@, dir@),
{
    let whole = path_components(path);
    let base = path_components(dir);
    if base.len() > whole.len() {
        return false;
    }
    let mut i: usize = 0;
    while i < base.len()
        invariant
            i <= base@.len() <= whole@.len(),
            texts(whole@) == components(path@),
            texts(base@) == components(dir@),
            forall|k: int| 0 <= k < i ==> (#[trigger] texts(whole@)[k]) == texts(base@)[k],
        decreases base.len() - i,
    {
        if !same(whole[i].as_str(), base[i].as_str()) {
            assert(texts(whole@).subrange(0, base@.len() as int)[i as int] != texts(
                base@,
            )[i as int]);
            return false;
        }
        i = i + 1;
    }
    assert(texts(whole@).subrange(0, base@.len() as int) =~= texts(base@));
    true
}

/// The last segment of a path.
pub open spec fn last_segment(path: Seq<char>) -> Seq<char> {
    path.subrange(last_at(path, '/') + 1, path.len() as int)
}

/// A path without the slashes and dots behind its last part that names
/// something.
pub open spec fn without_tail(path: Seq<char>) -> Seq<char>
    decreases path.len(),
{
    if path.len() > 1 && (path.last() == '/' || (path.last() == '.' && path[path.len() - 2]
        == '/')) {
        without_tail(path.drop_last())
    } else {
        path
    }
}

/// Finds where the slashes and dots behind the last part that names something
/// start.
pub fn find_tail(chars: &Vec<char>) -> (end: usize)
    ensures
        end <= chars@.len(),
        end == without_tail(chars@).len(),
        chars@.subrange(0, end as int) == without_tail(chars@),
{
    let mut end: usize = chars.len();
    assert(chars@.subrange(0, end as int) =~= chars@);
    while end > 1 && (chars[end - 1] == '/' || (chars[end - 1] == '.' && chars[end - 2] == '/'))
        invariant
            end <= chars@.len(),
            without_tail(chars@) == without_tail(chars@.subrange(0, end as int)),
        decreases end,
    {
        assert(chars@.subrange(0, end as int).drop_last() =~= chars@.subrange(0, end - 1));
        end = end - 1;
    }
    end
}

/// Drops the slashes and dots behind the last part that names something.
pub fn strip_tail(path: &str) -> (inner: String)
    ensures
        inner@ == without_tail(path@),
{
    let chars = chars_of(path);
    let end: usize = find_tail(&chars);
    slice_text(&chars, 0, end)
}

/// The place of the dot before the extension of a path; nothing where its last
/// part has no extension. A dot that a name starts with sets off none, and what
/// stands behind the last part that names something does not count.
pub open spec fn extension_dot(path: Seq<char>) -> Option<int> {
    let inner = without_tail(path);
    let name = last_segment(inner);
    let dot = last_at(name, '.');
    if dot <= 0 || name == seq!['.', '.'] {
        None
    } else {
        Some(last_at(inner, '/') + 1 + dot)
    }
}

/// The extension of a path; empty where it has none.
pub open spec fn extension_of(path: Seq<char>) -> Seq<char> {
    match extension_dot(path) {
        Some(dot) => path.subrange(dot + 1, without_tail(path).len() as int),
        None => Seq::empty(),
    }
}

/// Finds the dot before the extension of a path.
pub fn find_extension(chars: &Vec<char>) -> (at: Option<usize>)
    ensures
        match at {
            Some(dot) => dot < without_tail(chars@).len() <= chars@.len() && extension_dot(chars@)
                == Some(dot as int),
            None => extension_dot(chars@) is None,
        },
{
    let end: usize = find_tail(chars);
    let inner = chars_of(slice_text(chars, 0, end).as_str());
    let start: usize = match find_last(&inner, '/') {
        Some(i) => i + 1,
        None => 0,
    };
    let name = chars_of(slice_text(&inner, start, end).as_str());
    assert(name@ == last_segment(without_tail(chars@)));
    let dots = name.len() == 2 && name[0] == '.' && name[1] == '.';
    assert(dots <==> name@ == seq!['.', '.']) by {
        if dots {
            assert(name@ =~= seq!['.', '.']);
        }
    }
    proof {
        lemma_last_at(name@, '.');
    }
    match find_last(&name, '.') {
        Some(dot) => {
            if dot == 0 || dots {
                None
            } else {
                Some(start + dot)
            }
        },
        None => None,
    }
}

/// The extension of a path; empty where it has none.
pub fn extension(path: &str) -> (ext: String)
    ensures
        ext@ == extension_of(path@),
{
    let chars = chars_of(path);
    let end: usize = find_tail(&chars);
    match find_extension(&chars) {
        Some(dot) => slice_text(&chars, dot + 1, end),
        None => empty_text(),
    }
}

/// The name of the file that a path leads to; nothing where its last part names
/// none.
pub open spec fn file_name_of(path: Seq<char>) -> Option<Seq<char>> {
    let name = last_segment(without_tail(path));
    if name.len() == 0 || name == seq!['.'] || name == seq!['.', '.'] {
        None
    } else {
        Some(name)
    }
}

/// The name of the file that a path leads to.
pub fn file_name(path: &str) -> (name: Option<String>)
    ensures
        opt_text(name) == file_name_of(path@),
{
    let chars = chars_of(strip_tail(path).as_str());
    let len: usize = chars.len();
    let start: usize = match find_last(&chars, '/') {
        Some(i) => i + 1,
        None => 0,
    };
    let name = slice_text(&chars, start, len);
    let parts = chars_of(name.as_str());
    let dot = parts.len() == 1 && parts[0] == '.';
    let dots = parts.len() == 2 && parts[0] == '.' && parts[1] == '.';
    proof {
        if dot {
            assert(name@ =~= seq!['.']);
        }
        if dots {
            assert(name@ =~= seq!['.', '.']);
        }
    }
    if parts.len() == 0 || dot || dots {
        None
    } else {
        Some(name)
    }
}

/// The path of the key that belongs to an encrypted audio file: a `.voucher`
/// beside an `.aaxc`, a `.wvkey` beside a `.cenc`.
pub open spec fn sidecar_of(path: Seq<char>) -> Option<Seq<char>> {
    match extension_dot(path) {
        Some(dot) => {
            let stem = path.subrange(0, dot);
            if extension_of(path) == "aaxc"@ {
                Some(stem + ".voucher"@)
            } else if extension_of(path) == "cenc"@ {
                Some(stem + ".wvkey"@)
            } else {
                None
            }
        },
        None => None,
    }
}

/// The path of the key that belongs to an encrypted audio file.
pub fn sidecar_path(path: &str) -> (sidecar: Option<String>)
    ensures
        opt_text(sidecar) == sidecar_of(path@),
{
    let chars = chars_of(path);
    match find_extension(&chars) {
        Some(dot) => {
            let ext = extension(path);
            let stem = slice_text(&chars, 0, dot);
            if same(ext.as_str(), "aaxc") {
                Some(cat2(stem.as_str(), ".voucher"))
            } else if same(ext.as_str(), "cenc") {
                Some(cat2(stem.as_str(), ".wvkey"))
            } else {
                None
            }
        },
        None => None,
    }
}

/// What the parts of a split text are: at least one, none with the separator.
pub proof fn lemma_split_parts(s: Seq<char>, c: char)
    ensures
        split_all(s, c).len() > 0,
        forall|i: int| 0 <= i < split_all(s, c).len() ==> !(#[trigger] split_all(s, c)[i]).contains(c),
    decreases s.len(),
{
    lemma_first_at(s, c);
    let i = first_at(s, c);
    if i < s.len() {
        let rest = s.subrange(i + 1, s.len() as int);
        lemma_split_parts(rest, c);
        let front = s.subrange(0, i);
        assert(!front.contains(c)) by {
            assert forall|k: int| 0 <= k < front.len() implies front[k] != c by {
                assert(front[k] == s[k]);
            }
        }
        assert forall|k: int| 0 <= k < split_all(s, c).len() implies !(#[trigger] split_all(s, c)[k]).contains(c) by {
            if k > 0 {
                assert(split_all(s, c)[k] == split_all(rest, c)[k - 1]);
            }
        }
    } else {
        assert(!s.contains(c)) by {
            assert forall|k: int| 0 <= k < s.len() implies s[k] != c by {}
        }
    }
}

/// Splitting two texts with a separator between them splits each of them.
pub proof fn lemma_split_concat(a: Seq<char>, b: Seq<char>, c: char)
    ensures
        split_all(a + seq![c] + b, c) == split_all(a, c) + split_all(b, c),
    decreases a.len(),
{
    let whole = a + seq![c] + b;
    lemma_first_at(a, c);
    let i = first_at(a, c);
    if i < a.len() {
        assert forall|k: int| 0 <= k < i implies whole[k] != c by {
            assert(whole[k] == a[k]);
        }
        assert(whole[i] == c);
        lemma_first_at_is(whole, c, i);
        let rest = a.subrange(i + 1, a.len() as int);
        assert(whole.subrange(i + 1, whole.len() as int) =~= rest + seq![c] + b);
        assert(whole.subrange(0, i) =~= a.subrange(0, i));
        lemma_split_concat(rest, b, c);
        assert(split_all(whole, c) =~= split_all(a, c) + split_all(b, c));
    } else {
        assert forall|k: int| 0 <= k < a.len() implies whole[k] != c by {
            assert(whole[k] == a[k]);
        }
        lemma_first_at_is(whole, c, a.len() as int);
        assert(whole.subrange(0, a.len() as int) =~= a);
        assert(whole.subrange(a.len() as int + 1, whole.len() as int) =~= b);
    }
}

/// The named parts of two lists are those of each.
pub proof fn lemma_named_concat(a: Seq<Seq<char>>, b: Seq<Seq<char>>)
    ensures
        named_parts(a + b) == named_parts(a) + named_parts(b),
    decreases b.len(),
{
    if b.len() == 0 {
        assert(a + b =~= a);
        assert(named_parts(a) + named_parts(b) =~= named_parts(a));
    } else {
        assert((a + b).drop_last() =~= a + b.drop_last());
        lemma_named_concat(a, b.drop_last());
        assert(named_parts(a + b) =~= named_parts(a) + named_parts(b));
    }
}

/// Whether a text can be the name of something in a directory.
pub open spec fn is_name(part: Seq<char>) -> bool {
    part.len() > 0 && part != seq!['.'] && !part.contains('/')
}

/// A list of names is its own list of named parts.
pub proof fn lemma_names_are_named(names: Seq<Seq<char>>)
    requires
        forall|i: int| 0 <= i < names.len() ==> is_name(#[trigger] names[i]),
    ensures
        named_parts(names) == names,
    decreases names.len(),
{
    if names.len() > 0 {
        lemma_names_are_named(names.drop_last());
        assert(named_parts(names) =~= names);
    } else {
        assert(named_parts(names) =~= names);
    }
}

/// Joined names split into the names.
pub proof fn lemma_split_joined(names: Seq<Seq<char>>)
    requires
        forall|i: int| 0 <= i < names.len() ==> is_name(#[trigger] names[i]),
    ensures
        names.len() > 0 ==> split_all(joined(names, "/"@), '/') == names,
        named_parts(split_all(joined(names, "/"@), '/')) == names,
        !absolute(joined(names, "/"@)),
    decreases names.len(),
{
    reveal_strlit("/");
    assert("/"@ =~= seq!['/']);
    if names.len() == 0 {
        let empty = joined(names, "/"@);
        assert(first_at(empty, '/') == 0);
        let parts = split_all(empty, '/');
        assert(parts =~= seq![empty]);
        assert(parts.drop_last() =~= Seq::<Seq<char>>::empty());
        reveal_with_fuel(named_parts, 2);
        assert(named_parts(parts) =~= names);
    } else {
        let last = names.last();
        assert forall|k: int| 0 <= k < last.len() implies last[k] != '/' by {
            assert(last.contains(last[k]));
        }
        lemma_first_at_is(last, '/', last.len() as int);
        assert(split_all(last, '/') =~= seq![last]);
        if names.len() == 1 {
            assert(names =~= seq![last]);
        } else {
            let front = names.drop_last();
            lemma_split_joined(front);
            lemma_split_concat(joined(front, "/"@), last, '/');
            assert(names =~= front + seq![last]);
            assert(joined(front, "/"@).len() > 0) by {
                if joined(front, "/"@).len() == 0 {
                    let parts = split_all(joined(front, "/"@), '/');
                    assert(parts =~= seq![joined(front, "/"@)]);
                    assert(is_name(front[0]));
                }
            }
        }
        lemma_names_are_named(names);
    }
}

/// The empty path has no components.
pub proof fn lemma_empty_path()
    ensures
        components(Seq::empty()) == Seq::<Seq<char>>::empty(),
{
    let path = Seq::<char>::empty();
    assert(first_at(path, '/') == 0);
    let parts = split_all(path, '/');
    assert(parts =~= seq![path]);
    assert(parts.drop_last() =~= Seq::<Seq<char>>::empty());
    reveal_with_fuel(named_parts, 2);
    assert(seq!['.'].len() == 1);
    assert(components(path) =~= Seq::<Seq<char>>::empty());
}

/// The components of names joined behind a directory: those of the directory and the names.
pub proof fn lemma_joined_components(dir: Seq<char>, names: Seq<Seq<char>>)
    requires
        forall|i: int| 0 <= i < names.len() ==> is_name(#[trigger] names[i]),
    ensures
        components(joined_path(dir, joined(names, "/"@))) == components(dir) + names,
        absolute(joined_path(dir, joined(names, "/"@))) == absolute(dir),
{
    reveal_strlit("/");
    assert("/"@ =~= seq!['/']);
    let tail = joined(names, "/"@);
    lemma_split_joined(names);
    let whole = joined_path(dir, tail);
    lemma_split_parts(dir, '/');
    lemma_split_parts(tail, '/');
    if dir.len() == 0 {
        lemma_empty_path();
        assert(dir =~= Seq::<char>::empty());
        assert(whole =~= tail);
        if names.len() == 0 {
            assert(tail =~= dir);
        }
    } else if dir.last() == '/' {
        let bare = dir.drop_last();
        assert(dir =~= bare + seq!['/'] + Seq::<char>::empty());
        lemma_split_concat(bare, Seq::empty(), '/');
        lemma_split_concat(bare, tail, '/');
        assert(whole =~= bare + seq!['/'] + tail);
        let empty = split_all(Seq::<char>::empty(), '/');
        assert(first_at(Seq::<char>::empty(), '/') == 0);
        assert(empty =~= seq![Seq::<char>::empty()]);
        assert(empty.drop_last() =~= Seq::<Seq<char>>::empty());
        reveal_with_fuel(named_parts, 2);
        assert(named_parts(empty) =~= Seq::<Seq<char>>::empty());
        lemma_named_concat(split_all(bare, '/'), empty);
        lemma_named_concat(split_all(bare, '/'), split_all(tail, '/'));
        assert(named_parts(split_all(dir, '/')) =~= named_parts(split_all(bare, '/')));
    } else {
        lemma_split_concat(dir, tail, '/');
        assert(whole =~= dir + seq!['/'] + tail);
        lemma_named_concat(split_all(dir, '/'), split_all(tail, '/'));
    }
    assert(dir.len() > 0 ==> whole[0] == dir[0]);
    assert(components(whole) =~= components(dir) + names);
}

/// Whether a part of a path names nothing: it is empty or a dot.
pub open spec fn is_blank(part: Seq<char>) -> bool {
    part.len() == 0 || part == seq!['.']
}

/// The text behind the first part of a path and its slash.
pub open spec fn behind_part(s: Seq<char>) -> Seq<char> {
    let i = first_at(s, '/');
    if i < s.len() {
        s.subrange(i + 1, s.len() as int)
    } else {
        Seq::empty()
    }
}

/// A text without the parts in front that name nothing.
pub open spec fn without_blank_front(s: Seq<char>) -> Seq<char>
    decreases s.len(),
    via without_blank_front_ends
{
    if s.len() > 0 && is_blank(s.subrange(0, first_at(s, '/'))) {
        without_blank_front(behind_part(s))
    } else {
        s
    }
}

#[via_fn]
proof fn without_blank_front_ends(s: Seq<char>) {
    lemma_first_at(s, '/');
}

/// A text without the parts at the end that name nothing.
pub open spec fn without_blank_end(s: Seq<char>) -> Seq<char>
    decreases s.len(),
    via without_blank_end_ends
{
    let j = last_at(s, '/');
    if s.len() > 0 && is_blank(s.subrange(j + 1, s.len() as int)) {
        without_blank_end(
            s.subrange(
                0,
                if j < 0 {
                    0
                } else {
                    j
                },
            ),
        )
    } else {
        s
    }
}

#[via_fn]
proof fn without_blank_end_ends(s: Seq<char>) {
    lemma_last_at(s, '/');
}

/// The text behind the first `n` parts of a path that name something.
pub open spec fn behind_parts(s: Seq<char>, n: nat) -> Seq<char>
    decreases n,
{
    let inner = without_blank_front(s);
    if n == 0 {
        inner
    } else {
        behind_parts(behind_part(inner), (n - 1) as nat)
    }
}

/// How much of a path says where it starts: its root, or the dot in front.
pub open spec fn head_len(path: Seq<char>) -> int {
    if absolute(path) || split_all(path, '/')[0] == seq!['.'] {
        1
    } else {
        0
    }
}

/// What is left of the text of a path behind a directory, as it stands, but for
/// what names nothing at its two ends; behind the empty directory it is the path
/// with its start. Nothing where the path lies elsewhere.
pub open spec fn rest_below(path: Seq<char>, dir: Seq<char>) -> Option<Seq<char>> {
    if !within(path, dir) {
        None
    } else if dir.len() == 0 {
        let head = head_len(path);
        Some(path.subrange(0, head) + without_blank_end(path.subrange(head, path.len() as int)))
    } else {
        Some(without_blank_end(behind_parts(path, named_parts(split_all(dir, '/')).len())))
    }
}

fn part_end(chars: &Vec<char>, at: usize) -> (end: usize)
    requires
        at <= chars@.len(),
    ensures
        at <= end <= chars@.len(),
        end - at == first_at(chars@.subrange(at as int, chars@.len() as int), '/'),
{
    let ghost s = chars@.subrange(at as int, chars@.len() as int);
    let mut end: usize = at;
    while end < chars.len() && chars[end] != '/'
        invariant
            at <= end <= chars@.len(),
            s == chars@.subrange(at as int, chars@.len() as int),
            forall|k: int| 0 <= k < end - at ==> s[k] != '/',
        decreases chars.len() - end,
    {
        assert(s[end - at] == chars@[end as int]);
        end = end + 1;
    }
    proof {
        if end < chars@.len() {
            assert(s[end - at] == '/');
        }
        lemma_first_at_is(s, '/', end - at);
    }
    end
}

fn part_start(chars: &Vec<char>, from: usize, end: usize) -> (start: usize)
    requires
        from <= end <= chars@.len(),
    ensures
        from <= start <= end,
        start - from == last_at(chars@.subrange(from as int, end as int), '/') + 1,
{
    let ghost s = chars@.subrange(from as int, end as int);
    let mut start: usize = end;
    while start > from && chars[start - 1] != '/'
        invariant
            from <= start <= end <= chars@.len(),
            s == chars@.subrange(from as int, end as int),
            forall|k: int| start - from <= k < end - from ==> s[k] != '/',
        decreases start,
    {
        assert(s[start - from - 1] == chars@[start - 1]);
        start = start - 1;
    }
    proof {
        if start > from {
            assert(s[start - from - 1] == '/');
        }
        lemma_last_at_is(s, '/', start - from - 1);
    }
    start
}

fn blank_between(chars: &Vec<char>, start: usize, end: usize) -> (yes: bool)
    requires
        start <= end <= chars@.len(),
    ensures
        yes == is_blank(chars@.subrange(start as int, end as int)),
{
    let ghost part = chars@.subrange(start as int, end as int);
    let yes = start == end || (end - start == 1 && chars[start] == '.');
    proof {
        if yes && start != end {
            assert(part =~= seq!['.']);
        }
        if part == seq!['.'] {
            assert(part.len() == 1);
            assert(part[0] == '.');
        }
    }
    yes
}

fn skip_front(chars: &Vec<char>, from: usize) -> (at: usize)
    requires
        from <= chars@.len(),
    ensures
        from <= at <= chars@.len(),
        chars@.subrange(at as int, chars@.len() as int) == without_blank_front(
            chars@.subrange(from as int, chars@.len() as int),
        ),
{
    let ghost n = chars@.len() as int;
    let mut at: usize = from;
    loop
        invariant
            from <= at <= chars@.len(),
            n == chars@.len(),
            without_blank_front(chars@.subrange(from as int, n)) == without_blank_front(
                chars@.subrange(at as int, n),
            ),
        decreases n - at,
    {
        let ghost s = chars@.subrange(at as int, n);
        let end: usize = part_end(chars, at);
        assert(s.subrange(0, end - at) =~= chars@.subrange(at as int, end as int));
        if at == chars.len() || !blank_between(chars, at, end) {
            return at;
        }
        let next: usize = if end < chars.len() {
            end + 1
        } else {
            end
        };
        assert(behind_part(s) =~= chars@.subrange(next as int, n));
        at = next;
    }
}

fn skip_end(chars: &Vec<char>, from: usize, to: usize) -> (end: usize)
    requires
        from <= to <= chars@.len(),
    ensures
        from <= end <= to,
        chars@.subrange(from as int, end as int) == without_blank_end(
            chars@.subrange(from as int, to as int),
        ),
{
    let mut end: usize = to;
    loop
        invariant
            from <= end <= to <= chars@.len(),
            without_blank_end(chars@.subrange(from as int, to as int)) == without_blank_end(
                chars@.subrange(from as int, end as int),
            ),
        decreases end,
    {
        let ghost s = chars@.subrange(from as int, end as int);
        let start: usize = part_start(chars, from, end);
        assert(s.subrange(start - from, s.len() as int) =~= chars@.subrange(
            start as int,
            end as int,
        ));
        if end == from || !blank_between(chars, start, end) {
            return end;
        }
        let next: usize = if start > from {
            start - 1
        } else {
            from
        };
        assert(s.subrange(0, next - from) =~= chars@.subrange(from as int, next as int));
        end = next;
    }
}

fn starts_with_head(path: &str) -> (yes: bool)
    ensures
        yes == (head_len(path@) == 1),
        yes ==> path@.len() > 0,
{
    let segments = split(path, '/');
    proof {
        lemma_split_parts(path@, '/');
        lemma_first_at(path@, '/');
        assert(texts(segments@)[0] == segments@[0]@);
        if split_all(path@, '/')[0] == seq!['.'] {
            assert(split_all(path@, '/')[0].len() == 1);
            assert(split_all(path@, '/')[0].len() <= path@.len());
        }
    }
    is_absolute(path) || is_dot(segments[0].as_str())
}

/// Finds what is left of the text of a path behind a directory.
pub fn strip_prefix(path: &str, dir: &str) -> (rest: Option<String>)
    ensures
        opt_text(rest) == rest_below(path@, dir@),
{
    if !lies_within(path, dir) {
        return None;
    }
    let chars = chars_of(path);
    if dir.is_empty() {
        let head: usize = if starts_with_head(path) {
            1
        } else {
            0
        };
        let end: usize = skip_end(&chars, head, chars.len());
        let rest = slice_text(&chars, 0, end);
        assert(rest@ =~= path@.subrange(0, head as int) + chars@.subrange(
            head as int,
            end as int,
        ));
        return Some(rest);
    }
    let parts: usize = path_components(dir).len();
    let ghost all = named_parts(split_all(dir@, '/')).len();
    assert(components(dir@).len() == all + head_len(dir@));
    let mut left: usize = if starts_with_head(dir) {
        parts - 1
    } else {
        parts
    };
    let ghost n = chars@.len() as int;
    let mut at: usize = 0;
    assert(chars@.subrange(0, n) =~= chars@);
    while left > 0
        invariant
            at <= chars@.len(),
            n == chars@.len(),
            behind_parts(chars@, all) == behind_parts(chars@.subrange(at as int, n), left as nat),
        decreases left,
    {
        let start: usize = skip_front(&chars, at);
        let ghost inner = chars@.subrange(start as int, n);
        let end: usize = part_end(&chars, start);
        let next: usize = if end < chars.len() {
            end + 1
        } else {
            end
        };
        assert(behind_part(inner) =~= chars@.subrange(next as int, n));
        at = next;
        left = left - 1;
    }
    let start: usize = skip_front(&chars, at);
    let end: usize = skip_end(&chars, start, chars.len());
    Some(slice_text(&chars, start, end))
}

/// A text without its last part and the slash in front of it.
pub open spec fn without_last_part(s: Seq<char>) -> Seq<char> {
    let j = last_at(s, '/');
    s.subrange(
        0,
        if j < 0 {
            0
        } else {
            j
        },
    )
}

/// The directory that a path lies in, as the text says it: the path without its
/// last component. The root and the empty path lie in none.
pub open spec fn parent_of(path: Seq<char>) -> Option<Seq<char>> {
    let head = head_len(path);
    let body = without_blank_end(path.subrange(head, path.len() as int));
    if body.len() > 0 {
        Some(path.subrange(0, head) + without_blank_end(without_last_part(body)))
    } else if head == 1 && !absolute(path) {
        Some(Seq::empty())
    } else {
        None
    }
}

/// Finds the directory that a path lies in.
pub fn parent(path: &str) -> (dir: Option<String>)
    ensures
        opt_text(dir) == parent_of(path@),
        dir is Some ==> dir->Some_0@.len() < path@.len(),
{
    let chars = chars_of(path);
    let head: usize = if starts_with_head(path) {
        1
    } else {
        0
    };
    let end: usize = skip_end(&chars, head, chars.len());
    if end == head {
        if head == 1 && !is_absolute(path) {
            return Some(empty_text());
        }
        return None;
    }
    let ghost body = chars@.subrange(head as int, end as int);
    let start: usize = part_start(&chars, head, end);
    let cut: usize = if start > head {
        start - 1
    } else {
        head
    };
    proof {
        lemma_last_at(body, '/');
        assert(without_last_part(body) =~= chars@.subrange(head as int, cut as int));
    }
    let last: usize = skip_end(&chars, head, cut);
    let dir = slice_text(&chars, 0, last);
    assert(dir@ =~= path@.subrange(0, head as int) + chars@.subrange(head as int, last as int));
    Some(dir)
}

/// The directory that a path lies in has a shorter text.
pub proof fn lemma_parent_is_shorter(path: Seq<char>)
    ensures
        parent_of(path) is Some ==> parent_of(path)->Some_0.len() < path.len(),
{
    let head = head_len(path);
    lemma_split_parts(path, '/');
    lemma_first_at(path, '/');
    if head == 1 && !absolute(path) {
        assert(split_all(path, '/')[0].len() == 1);
        assert(split_all(path, '/')[0].len() <= path.len());
    }
    let whole = path.subrange(head, path.len() as int);
    let body = without_blank_end(whole);
    lemma_end_is_shorter(whole);
    lemma_last_at(body, '/');
    lemma_end_is_shorter(without_last_part(body));
}

proof fn lemma_end_is_shorter(s: Seq<char>)
    ensures
        without_blank_end(s).len() <= s.len(),
    decreases s.len(),
{
    lemma_last_at(s, '/');
    if !ends_named(s) {
        lemma_end_is_shorter(without_last_part(s));
    }
}

/// Whether a text is empty or starts with a part that names something.
pub open spec fn starts_named(s: Seq<char>) -> bool {
    s.len() == 0 || !is_blank(s.subrange(0, first_at(s, '/')))
}

/// Whether a text is empty or ends with a part that names something.
pub open spec fn ends_named(s: Seq<char>) -> bool {
    s.len() == 0 || !is_blank(s.subrange(last_at(s, '/') + 1, s.len() as int))
}

proof fn lemma_front(s: Seq<char>)
    ensures
        starts_named(without_blank_front(s)),
    decreases s.len(),
{
    lemma_first_at(s, '/');
    if s.len() > 0 && is_blank(s.subrange(0, first_at(s, '/'))) {
        lemma_front(behind_part(s));
    }
}

proof fn lemma_end(s: Seq<char>)
    ensures
        ends_named(without_blank_end(s)),
        starts_named(s) ==> starts_named(without_blank_end(s)),
    decreases s.len(),
{
    lemma_last_at(s, '/');
    lemma_first_at(s, '/');
    let i = first_at(s, '/');
    let j = last_at(s, '/');
    if !ends_named(s) {
        let n = if j < 0 {
            0
        } else {
            j
        };
        let cut = s.subrange(0, n);
        lemma_end(cut);
        if starts_named(s) {
            if j < 0 {
                assert(s.subrange(0, i) =~= s.subrange(j + 1, s.len() as int));
            } else {
                assert(i <= j);
                lemma_first_at_is(cut, '/', i);
                assert(cut.subrange(0, i) =~= s.subrange(0, i));
            }
        }
    }
}

proof fn lemma_behind_starts_named(s: Seq<char>, n: nat)
    ensures
        starts_named(behind_parts(s, n)),
    decreases n,
{
    let inner = without_blank_front(s);
    if n == 0 {
        lemma_front(s);
    } else {
        lemma_behind_starts_named(behind_part(inner), (n - 1) as nat);
    }
}

/// What is left of a path behind a directory starts and ends with a part that
/// names something; behind the empty directory, where the path does.
pub proof fn lemma_rest_is_named(path: Seq<char>, dir: Seq<char>)
    requires
        rest_below(path, dir) is Some,
        dir.len() > 0 || components(path).len() == 0 || is_name(components(path)[0]),
    ensures
        starts_named(rest_below(path, dir)->Some_0),
        ends_named(rest_below(path, dir)->Some_0),
{
    if dir.len() > 0 {
        let rest = behind_parts(path, named_parts(split_all(dir, '/')).len());
        lemma_behind_starts_named(path, named_parts(split_all(dir, '/')).len());
        lemma_end(rest);
    } else {
        lemma_split_parts(path, '/');
        lemma_first_at(path, '/');
        if absolute(path) {
            assert(components(path)[0] == seq!['/']);
            assert(seq!['/'][0] == '/');
            assert(seq!['/'].contains('/'));
        }
        assert(path.subrange(0, path.len() as int) =~= path);
        assert(path.subrange(0, 0) + without_blank_end(path) =~= without_blank_end(path));
        assert(starts_named(path)) by {
            if path.len() > 0 {
                assert(path.subrange(0, first_at(path, '/')) =~= split_all(path, '/')[0]);
            }
        }
        lemma_end(path);
    }
}

proof fn lemma_named_first(part: Seq<char>, rest: Seq<Seq<char>>)
    ensures
        is_blank(part) ==> named_parts(seq![part] + rest) == named_parts(rest),
        !is_blank(part) ==> named_parts(seq![part] + rest).len() == named_parts(rest).len() + 1,
{
    let one = seq![part];
    lemma_named_concat(one, rest);
    assert(one.drop_last() =~= Seq::<Seq<char>>::empty());
    reveal_with_fuel(named_parts, 2);
    if is_blank(part) {
        assert(named_parts(one) =~= Seq::<Seq<char>>::empty());
        assert(named_parts(one) + named_parts(rest) =~= named_parts(rest));
    }
}

proof fn lemma_behind_all(a: Seq<char>, b: Seq<char>)
    ensures
        behind_parts(a + seq!['/'] + b, named_parts(split_all(a, '/')).len()) == without_blank_front(
            b,
        ),
    decreases a.len(),
{
    let whole = a + seq!['/'] + b;
    lemma_first_at(a, '/');
    let i = first_at(a, '/');
    let part = a.subrange(0, i);
    assert forall|k: int| 0 <= k < i implies whole[k] != '/' by {
        assert(whole[k] == a[k]);
    }
    assert(whole[i] == '/');
    lemma_first_at_is(whole, '/', i);
    assert(whole.subrange(0, i) =~= part);
    if i < a.len() {
        let rest = a.subrange(i + 1, a.len() as int);
        assert(behind_part(whole) =~= rest + seq!['/'] + b);
        lemma_behind_all(rest, b);
        lemma_named_first(part, split_all(rest, '/'));
    } else {
        assert(behind_part(whole) =~= b);
        assert(part =~= a);
        assert(split_all(a, '/') =~= seq![part] + Seq::<Seq<char>>::empty());
        lemma_named_first(part, Seq::empty());
        reveal_with_fuel(behind_parts, 2);
    }
}

proof fn lemma_trailing_slash(bare: Seq<char>)
    ensures
        named_parts(split_all(bare + seq!['/'], '/')) == named_parts(split_all(bare, '/')),
        split_all(bare + seq!['/'], '/')[0] == split_all(bare, '/')[0],
{
    let empty = Seq::<char>::empty();
    lemma_split_concat(bare, empty, '/');
    assert(bare + seq!['/'] + empty =~= bare + seq!['/']);
    lemma_split_parts(bare, '/');
    assert(first_at(empty, '/') == 0);
    assert(split_all(empty, '/') =~= seq![empty] + Seq::<Seq<char>>::empty());
    lemma_named_first(empty, Seq::empty());
    lemma_named_concat(split_all(bare, '/'), split_all(empty, '/'));
    assert(named_parts(split_all(bare, '/')) + Seq::<Seq<char>>::empty() =~= named_parts(
        split_all(bare, '/'),
    ));
}

/// What is joined behind a directory is what is left behind it, without the parts
/// at its end that name nothing.
pub proof fn lemma_rest_of_joined(dir: Seq<char>, tail: Seq<char>)
    requires
        tail.len() > 0,
        starts_named(tail),
    ensures
        rest_below(joined_path(dir, tail), dir) == Some(without_blank_end(tail)),
{
    reveal_strlit("/");
    assert("/"@ =~= seq!['/']);
    lemma_first_at(tail, '/');
    lemma_split_parts(tail, '/');
    assert(split_all(tail, '/')[0] =~= tail.subrange(0, first_at(tail, '/')));
    assert(!absolute(tail));
    let whole = joined_path(dir, tail);
    if dir.len() == 0 {
        lemma_empty_path();
        assert(dir =~= Seq::<char>::empty());
        assert(whole =~= tail);
        assert(tail.subrange(0, tail.len() as int) =~= tail);
        assert(tail.subrange(0, 0) + without_blank_end(tail) =~= without_blank_end(tail));
        assert(components(whole).subrange(0, 0) =~= components(dir));
    } else {
        let bare = if dir.last() == '/' {
            dir.drop_last()
        } else {
            dir
        };
        if dir.last() == '/' {
            assert(dir =~= bare + seq!['/']);
            lemma_trailing_slash(bare);
        }
        assert(whole =~= bare + seq!['/'] + tail);
        lemma_behind_all(bare, tail);
        lemma_split_concat(bare, tail, '/');
        lemma_split_parts(bare, '/');
        lemma_named_concat(split_all(bare, '/'), split_all(tail, '/'));
        assert(whole[0] == dir[0]);
        assert(components(whole) =~= components(dir) + named_parts(split_all(tail, '/')));
        assert(components(whole).subrange(0, components(dir).len() as int) =~= components(dir));
    }
}

/// A text behind a slash keeps its end.
pub proof fn lemma_end_of_joined(a: Seq<char>, b: Seq<char>)
    requires
        ends_named(b),
    ensures
        b.len() > 0 ==> without_blank_end(a + seq!['/'] + b) == a + seq!['/'] + b,
        b.len() == 0 ==> without_blank_end(a + seq!['/'] + b) == without_blank_end(a),
{
    let whole = a + seq!['/'] + b;
    lemma_last_at(b, '/');
    let j = a.len() + 1 + last_at(b, '/');
    assert forall|k: int| j < k < whole.len() implies whole[k] != '/' by {
        assert(whole[k] == b[k - a.len() - 1]);
    }
    assert(whole[j] == '/');
    lemma_last_at_is(whole, '/', j);
    if b.len() > 0 {
        assert(whole.subrange(j + 1, whole.len() as int) =~= b.subrange(
            last_at(b, '/') + 1,
            b.len() as int,
        ));
    } else {
        assert(whole.subrange(0, a.len() as int) =~= a);
    }
}

/// A name starts and ends with itself, and nothing of it is left behind it.
pub proof fn lemma_name_alone(name: Seq<char>)
    requires
        is_name(name),
    ensures
        starts_named(name),
        ends_named(name),
        rest_below(name, name) == Some(Seq::<char>::empty()),
{
    assert forall|k: int| 0 <= k < name.len() implies name[k] != '/' by {
        assert(name.contains(name[k]));
    }
    lemma_first_at_is(name, '/', name.len() as int);
    lemma_last_at_is(name, '/', -1);
    assert(name.subrange(0, name.len() as int) =~= name);
    assert(split_all(name, '/') =~= seq![name] + Seq::<Seq<char>>::empty());
    lemma_named_first(name, Seq::empty());
    reveal_with_fuel(behind_parts, 2);
    assert(components(name).subrange(0, components(name).len() as int) =~= components(name));
}

/// What is joined behind a directory lies in it, unless it starts at the root
/// itself.
pub proof fn law_joined_lies_within(dir: Seq<char>, path: Seq<char>)
    ensures
        absolute(path) ==> joined_path(dir, path) == path,
        !absolute(path) ==> within(joined_path(dir, path), dir),
        !absolute(path) ==> joined_path(dir, path).len() >= path.len() && joined_path(
            dir,
            path,
        ).subrange(joined_path(dir, path).len() - path.len(), joined_path(dir, path).len() as int)
            == path,
{
    reveal_strlit("/");
    assert("/"@ =~= seq!['/']);
    let whole = joined_path(dir, path);
    if !absolute(path) {
        assert(whole.subrange(whole.len() - path.len(), whole.len() as int) =~= path);
        lemma_split_parts(path, '/');
        if dir.len() == 0 {
            lemma_empty_path();
            assert(dir =~= Seq::<char>::empty());
            assert(components(whole).subrange(0, 0) =~= components(dir));
        } else {
            let bare = if dir.last() == '/' {
                dir.drop_last()
            } else {
                dir
            };
            if dir.last() == '/' {
                assert(dir =~= bare + seq!['/']);
                lemma_trailing_slash(bare);
            }
            assert(whole =~= bare + seq!['/'] + path);
            lemma_split_concat(bare, path, '/');
            lemma_split_parts(bare, '/');
            lemma_named_concat(split_all(bare, '/'), split_all(path, '/'));
            assert(whole[0] == dir[0]);
            assert(components(whole) =~= components(dir) + named_parts(split_all(path, '/')));
            assert(components(whole).subrange(0, components(dir).len() as int) =~= components(dir));
        }
    }
}

/// To lie in a directory is an order: every path lies in itself, what lies in a
/// directory lies in those that this one lies in, and two that lie in each other
/// are the same path.
pub proof fn law_within_is_an_order(a: Seq<char>, b: Seq<char>, c: Seq<char>)
    ensures
        within(a, a),
        within(a, b) && within(b, c) ==> within(a, c),
        within(a, b) && within(b, a) ==> components(a) == components(b),
        within(a, b) <==> exists|rest: Seq<Seq<char>>| components(a) == #[trigger] (components(b)
            + rest),
{
    let x = components(a);
    let y = components(b);
    let z = components(c);
    assert(x.subrange(0, x.len() as int) =~= x);
    if within(a, b) {
        let rest = x.subrange(y.len() as int, x.len() as int);
        assert(x =~= y + rest);
        if within(b, c) {
            assert(x.subrange(0, z.len() as int) =~= y.subrange(0, z.len() as int));
        }
        if within(b, a) {
            assert(y.subrange(0, x.len() as int) =~= y);
        }
    }
    if exists|rest: Seq<Seq<char>>| x == #[trigger] (y + rest) {
        let rest = choose|rest: Seq<Seq<char>>| x == #[trigger] (y + rest);
        assert(x.subrange(0, y.len() as int) =~= y);
    }
}

/// The extension of a file is what stands behind the last dot of its name, and its
/// key lies beside it, under the same name with an extension of its own.
pub proof fn law_extensions_stand_behind_the_last_dot(stem: Seq<char>, ext: Seq<char>)
    requires
        stem.len() > 0,
        stem.last() != '/',
        ext.len() > 0,
        !ext.contains('.'),
        !ext.contains('/'),
    ensures
        extension_dot(stem + "."@ + ext) == Some(stem.len() as int),
        extension_of(stem + "."@ + ext) == ext,
        ext == "aaxc"@ ==> sidecar_of(stem + "."@ + ext) == Some(stem + ".voucher"@),
        ext == "cenc"@ ==> sidecar_of(stem + "."@ + ext) == Some(stem + ".wvkey"@),
        ext != "aaxc"@ && ext != "cenc"@ ==> sidecar_of(stem + "."@ + ext) is None,
{
    reveal_strlit(".");
    reveal_strlit("aaxc");
    reveal_strlit("cenc");
    assert("aaxc"@[0] == 'a');
    assert("cenc"@[0] == 'c');
    assert("."@ =~= seq!['.']);
    let path = stem + "."@ + ext;
    assert forall|k: int| 0 <= k < ext.len() implies ext[k] != '.' && ext[k] != '/' by {
        assert(ext.contains(ext[k]));
    }
    assert(path.last() == ext.last());
    assert(without_tail(path) == path);
    lemma_last_at(stem, '/');
    let j = last_at(stem, '/');
    assert forall|k: int| j < k < path.len() implies path[k] != '/' by {
        if k > stem.len() {
            assert(path[k] == ext[k - stem.len() - 1]);
        }
    }
    lemma_last_at_is(path, '/', j);
    let name = last_segment(path);
    let dot = stem.len() - j - 1;
    assert(name[dot] == '.');
    assert forall|k: int| dot < k < name.len() implies name[k] != '.' by {
        assert(name[k] == ext[k - dot - 1]);
    }
    lemma_last_at_is(name, '.', dot);
    assert(name != seq!['.', '.']) by {
        assert(name.last() == ext.last());
        assert(seq!['.', '.'].last() == '.');
    }
    assert(path.subrange(0, stem.len() as int) =~= stem);
    assert(path.subrange(stem.len() as int + 1, path.len() as int) =~= ext);
}

/// The file that a path leads to is named by its last part.
pub proof fn law_files_are_named_by_the_last_part(dir: Seq<char>, name: Seq<char>)
    requires
        is_name(name),
        name != seq!['.', '.'],
    ensures
        file_name_of(dir + seq!['/'] + name) == Some(name),
        file_name_of(name) == Some(name),
{
    let path = dir + seq!['/'] + name;
    assert forall|k: int| 0 <= k < name.len() implies name[k] != '/' by {
        assert(name.contains(name[k]));
    }
    assert forall|k: int| dir.len() < k < path.len() implies path[k] != '/' by {
        assert(path[k] == name[k - dir.len() - 1]);
    }
    lemma_last_at_is(path, '/', dir.len() as int);
    lemma_last_at_is(name, '/', -1);
    assert(path.last() == name.last());
    assert(without_tail(path) == path) by {
        if path.last() == '.' && path[path.len() - 2] == '/' {
            assert(name.len() == 1) by {
                if name.len() > 1 {
                    assert(path[path.len() - 2] == name[name.len() - 2]);
                }
            }
            assert(name =~= seq!['.']);
        }
    }
    assert(without_tail(name) == name) by {
        if name.len() > 1 {
            assert(name[name.len() - 2] != '/');
        }
    }
    assert(path.subrange(dir.len() as int + 1, path.len() as int) =~= name);
    assert(name.subrange(0, name.len() as int) =~= name);
}

} // verus!
