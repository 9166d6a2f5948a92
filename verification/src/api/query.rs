//! The query parameters of a request.

use vstd::prelude::*;
use vstd::string::StringExecFns;
use super::error::ApiError;
use crate::lists::add_pair;
use crate::lists::lemma_unique;
use crate::lists::unique;
use crate::lists::unique_from;
use crate::text::split;
use crate::text::split_all;
use crate::text::split_once;
use crate::text::split_once_spec;
use crate::text::texts;
use crate::text_map::pairs_of;

verus! {

/// The pair of a segment of a query; one without `=` has an empty value.
pub open spec fn segment_pair(segment: Seq<char>) -> (Seq<char>, Seq<char>) {
    match split_once_spec(segment, '=') {
        Some(pair) => pair,
        None => (segment, Seq::empty()),
    }
}

/// The pairs of the segments that are not empty.
pub open spec fn segment_pairs(segments: Seq<Seq<char>>) -> Seq<(Seq<char>, Seq<char>)>
    decreases segments.len(),
{
    if segments.len() == 0 {
        Seq::empty()
    } else if segments.last().len() == 0 {
        segment_pairs(segments.drop_last())
    } else {
        segment_pairs(segments.drop_last()).push(segment_pair(segments.last()))
    }
}

/// The pairs of the query of a path.
pub open spec fn path_pairs(path: Seq<char>) -> Seq<(Seq<char>, Seq<char>)> {
    match split_once_spec(path, '?') {
        Some((_, query)) => segment_pairs(split_all(query, '&')),
        None => Seq::empty(),
    }
}

/// The pairs with those of `list` behind them, or the first that is no pair.
pub open spec fn with_extra(
    pairs: Seq<(Seq<char>, Seq<char>)>,
    list: Seq<Seq<char>>,
) -> Result<Seq<(Seq<char>, Seq<char>)>, ApiError<Seq<char>>>
    decreases list.len(),
{
    if list.len() == 0 {
        Ok(pairs)
    } else {
        match split_once_spec(list[0], '=') {
            None => Err(ApiError::QueryNotPair(list[0])),
            Some(pair) => with_extra(pairs.push(pair), list.drop_first()),
        }
    }
}

/// The parameters of a request: those of its path and then the others, in
/// order, without exact repeats.
pub open spec fn merged(path: Seq<char>, extra: Seq<Seq<char>>) -> Result<
    Seq<(Seq<char>, Seq<char>)>,
    ApiError<Seq<char>>,
> {
    match with_extra(path_pairs(path), extra) {
        Err(error) => Err(error),
        Ok(pairs) => Ok(unique(pairs)),
    }
}

fn pairs_in_path(path: &str) -> (pairs: Vec<(String, String)>)
    ensures
        pairs_of(pairs@) == path_pairs(path@),
{
    let mut pairs: Vec<(String, String)> = Vec::new();
    match split_once(path, '?') {
        Some((_, query)) => {
            let segments = split(query.as_str(), '&');
            let ghost all = texts(segments@);
            let mut i: usize = 0;
            assert(pairs_of(pairs@) =~= segment_pairs(all.subrange(0, 0)));
            while i < segments.len()
                invariant
                    i <= segments@.len(),
                    all == texts(segments@),
                    pairs_of(pairs@) == segment_pairs(all.subrange(0, i as int)),
                decreases segments.len() - i,
            {
                let segment = segments[i].as_str();
                let ghost before = pairs_of(pairs@);
                let ghost front = all.subrange(0, i + 1);
                assert(front.drop_last() =~= all.subrange(0, i as int));
                assert(front.last() == segment@);
                if !segment.is_empty() {
                    let pair = match split_once(segment, '=') {
                        Some(pair) => pair,
                        None => (String::from_str(segment), String::new()),
                    };
                    assert((pair.0@, pair.1@) == segment_pair(segment@)) by {
                        assert(split_once_spec(segment@, '=') is None ==> pair.1@
                            =~= Seq::<char>::empty());
                    }
                    pairs.push(pair);
                    assert(pairs_of(pairs@) =~= before.push(segment_pair(segment@)));
                }
                i = i + 1;
            }
            assert(all.subrange(0, i as int) =~= all);
        },
        None => {
            assert(pairs_of(pairs@) =~= Seq::<(Seq<char>, Seq<char>)>::empty());
        },
    }
    pairs
}

/// Merges the query of a path and further `key=value` texts into one list, in
/// order. A key may come again with another value, as the API asks of repeated
/// parameters; only an exact repeat is dropped.
pub fn merge_query(path: &str, extra: &[String]) -> (result: Result<
    Vec<(String, String)>,
    ApiError<String>,
>)
    ensures
        match result {
            Ok(pairs) => merged(path@, texts(extra@)) == Ok::<
                Seq<(Seq<char>, Seq<char>)>,
                ApiError<Seq<char>>,
            >(pairs_of(pairs@)),
            Err(e) => merged(path@, texts(extra@)) == Err::<
                Seq<(Seq<char>, Seq<char>)>,
                ApiError<Seq<char>>,
            >(e@),
        },
{
    let mut pairs = pairs_in_path(path);
    let ghost all = texts(extra@);
    let mut i: usize = 0;
    assert(all.subrange(0, all.len() as int) =~= all);
    while i < extra.len()
        invariant
            i <= extra@.len(),
            all == texts(extra@),
            with_extra(path_pairs(path@), all) == with_extra(
                pairs_of(pairs@),
                all.subrange(i as int, all.len() as int),
            ),
        decreases extra.len() - i,
    {
        let ghost rest = all.subrange(i as int, all.len() as int);
        assert(rest[0] == extra@[i as int]@);
        assert(rest.drop_first() =~= all.subrange(i + 1, all.len() as int));
        match split_once(extra[i].as_str(), '=') {
            None => {
                return Err(ApiError::QueryNotPair(extra[i].clone()));
            },
            Some(pair) => {
                let ghost before = pairs_of(pairs@);
                pairs.push(pair);
                assert(pairs_of(pairs@) =~= before.push((pair.0@, pair.1@)));
            },
        }
        i = i + 1;
    }
    let ghost whole = pairs_of(pairs@);
    let mut result: Vec<(String, String)> = Vec::new();
    let mut k: usize = 0;
    assert(pairs_of(result@) =~= Seq::<(Seq<char>, Seq<char>)>::empty());
    assert(whole.subrange(0, whole.len() as int) =~= whole);
    while k < pairs.len()
        invariant
            k <= pairs@.len(),
            whole == pairs_of(pairs@),
            unique(whole) == unique_from(
                pairs_of(result@),
                whole.subrange(k as int, whole.len() as int),
            ),
        decreases pairs.len() - k,
    {
        let ghost rest = whole.subrange(k as int, whole.len() as int);
        assert(rest[0] == (pairs@[k as int].0@, pairs@[k as int].1@));
        assert(rest.drop_first() =~= whole.subrange(k + 1, whole.len() as int));
        add_pair(&mut result, pairs[k].0.clone(), pairs[k].1.clone());
        k = k + 1;
    }
    Ok(result)
}

/// No parameter is sent twice with one value, and none of those given is lost.
pub proof fn law_merged_keeps_each_pair_once(path: Seq<char>, extra: Seq<Seq<char>>)
    ensures
        merged(path, extra) matches Ok(pairs) ==> {
            &&& pairs.no_duplicates()
            &&& forall|pair: (Seq<char>, Seq<char>)|
                pairs.contains(pair) <==> with_extra(path_pairs(path), extra)->Ok_0.contains(pair)
        },
{
    if let Ok(pairs) = with_extra(path_pairs(path), extra) {
        lemma_unique(pairs);
    }
}

/// Every segment of a query that is not empty is a pair, in order: what stands
/// before and behind its first equals sign, or all of it with an empty value.
pub proof fn law_segments_are_pairs(
    segments: Seq<Seq<char>>,
    key: Seq<char>,
    value: Seq<char>,
)
    requires
        !key.contains('='),
    ensures
        segment_pairs(Seq::empty()).len() == 0,
        segment_pairs(segments.push(Seq::empty())) == segment_pairs(segments),
        segment_pairs(segments.push(key + seq!['='] + value)) == segment_pairs(segments).push(
            (key, value),
        ),
        key.len() > 0 ==> segment_pairs(segments.push(key)) == segment_pairs(segments).push(
            (key, Seq::empty()),
        ),
{
    crate::text::law_texts_part_at_the_first_place(key, '=', value);
    assert(segments.push(Seq::empty()).drop_last() =~= segments);
    assert(segments.push(key + seq!['='] + value).drop_last() =~= segments);
    assert(segments.push(key).drop_last() =~= segments);
}

proof fn lemma_with_extra(pairs: Seq<(Seq<char>, Seq<char>)>, list: Seq<Seq<char>>)
    ensures
        with_extra(pairs, list) is Ok <==> forall|i: int|
            0 <= i < list.len() ==> (#[trigger] list[i]).contains('='),
        with_extra(pairs, list) matches Ok(all) ==> {
            &&& all.len() == pairs.len() + list.len()
            &&& forall|i: int| 0 <= i < pairs.len() ==> (#[trigger] all[i]) == pairs[i]
            &&& forall|i: int|
                0 <= i < list.len() ==> split_once_spec(#[trigger] list[i], '=') == Some(
                    all[pairs.len() + i],
                )
        },
    decreases list.len(),
{
    if list.len() > 0 {
        let rest = list.drop_first();
        assert forall|k: int| 0 <= k < rest.len() implies (#[trigger] rest[k]) == list[k + 1] by {}
        assert forall|k: int| 0 < k < list.len() implies (#[trigger] list[k]) == rest[k - 1] by {}
        crate::text::lemma_first_at(list[0], '=');
        assert(split_once_spec(list[0], '=') is Some <==> list[0].contains('=')) by {
            if list[0].contains('=') {
                let k = choose|k: int| 0 <= k < list[0].len() && list[0][k] == '=';
                assert(crate::text::first_at(list[0], '=') <= k);
            }
            if split_once_spec(list[0], '=') is Some {
                assert(list[0][crate::text::first_at(list[0], '=')] == '=');
            }
        }
        if let Some(pair) = split_once_spec(list[0], '=') {
            let more = pairs.push(pair);
            lemma_with_extra(more, rest);
            if let Ok(all) = with_extra(pairs, list) {
                assert forall|i: int| 0 <= i < pairs.len() implies (#[trigger] all[i]) == pairs[i] by {
                    assert(all[i] == more[i]);
                }
                assert(all[pairs.len() as int] == more[pairs.len() as int]);
            }
        }
    }
}

/// Every parameter of the path and every one that is given besides is sent, and
/// nothing else is; one that is no pair is refused, and nothing else is.
pub proof fn law_every_parameter_is_sent(
    path: Seq<char>,
    extra: Seq<Seq<char>>,
    pair: (Seq<char>, Seq<char>),
)
    ensures
        merged(path, extra) is Ok <==> forall|i: int|
            0 <= i < extra.len() ==> (#[trigger] extra[i]).contains('='),
        merged(path, extra) matches Ok(pairs) ==> (pairs.contains(pair) <==> path_pairs(
            path,
        ).contains(pair) || exists|i: int|
            0 <= i < extra.len() && split_once_spec(#[trigger] extra[i], '=') == Some(pair)),
{
    let stored = path_pairs(path);
    lemma_with_extra(stored, extra);
    law_merged_keeps_each_pair_once(path, extra);
    if let Ok(all) = with_extra(stored, extra) {
        if all.contains(pair) {
            let k = choose|k: int| 0 <= k < all.len() && all[k] == pair;
            if k < stored.len() {
                assert(stored[k] == pair);
            } else {
                let i = k - stored.len();
                assert(split_once_spec(extra[i], '=') == Some(all[stored.len() + i]));
            }
        }
        if stored.contains(pair) {
            let k = choose|k: int| 0 <= k < stored.len() && stored[k] == pair;
            assert(all[k] == pair);
        }
        if exists|i: int|
            0 <= i < extra.len() && split_once_spec(#[trigger] extra[i], '=') == Some(pair) {
            let i = choose|i: int|
                0 <= i < extra.len() && split_once_spec(#[trigger] extra[i], '=') == Some(pair);
            assert(all[stored.len() + i] == pair);
        }
    }
}

} // verus!
