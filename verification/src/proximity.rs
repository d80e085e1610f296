//! How near photos are in time, and by camera, to photos that are confirmed.
use std::path::PathBuf;

use vstd::prelude::*;
use vstd::string::*;

use crate::capture::Capture;
use crate::ranking::{
    is_ranked, is_ranking, lemma_filter_keeps_ranking, lemma_filtered_is_sorted,
    lemma_sorted_is_unique, outranks, take_ranked, taken_in_order,
};

verus! {

/// At most this many candidates go on to the comparison of colors.
pub const STAGE1_TOP_N: usize = 200;

/// A photo and how it was taken.
#[derive(Debug)]
pub struct Photo {
    pub path: PathBuf,
    pub capture: Capture,
}

impl Photo {
    /// It is known when the photo was taken.
    pub open spec fn timed(self) -> bool {
        self.capture.secs is Some
    }

    /// When the photo was taken.
    pub open spec fn secs(self) -> int {
        self.capture.secs->0 as int
    }
}

/// The distance of two moments.
pub open spec fn distance(a: int, b: int) -> int {
    if a <= b {
        b - a
    } else {
        a - b
    }
}

/// The distances of a moment to all anchors are within 64 bits.
pub open spec fn within_reach(anchors: Seq<Photo>, secs: int) -> bool {
    forall|i: int|
        0 <= i < anchors.len() && (#[trigger] anchors[i]).timed() ==> distance(
            secs,
            anchors[i].secs(),
        ) <= i64::MAX
}

/// Anchor `i` is the nearest one in time, the first of them if there are more.
pub open spec fn is_nearest(anchors: Seq<Photo>, secs: int, i: int) -> bool {
    &&& 0 <= i < anchors.len()
    &&& anchors[i].timed()
    &&& forall|j: int|
        0 <= j < anchors.len() && (#[trigger] anchors[j]).timed() ==> distance(
            secs,
            anchors[i].secs(),
        ) <= distance(secs, anchors[j].secs())
    &&& forall|j: int|
        0 <= j < i && (#[trigger] anchors[j]).timed() ==> distance(secs, anchors[i].secs())
            < distance(secs, anchors[j].secs())
}

/// Both cameras are known and are of the same model.
pub open spec fn cameras_agree(a: Capture, b: Capture) -> bool {
    a.model() is Some && a.model() == b.model()
}

/// A candidate and the anchor nearest to it in time.
#[derive(Clone, Copy, Debug, PartialEq, Eq, Structural)]
pub struct Proximity {
    /// The candidate's place among the candidates.
    pub candidate: usize,
    /// The anchor's place among the anchors.
    pub anchor: usize,
    /// How far apart in time they are.
    pub delta_secs: i64,
    /// Both were taken with the same camera.
    pub same_camera: bool,
}

impl Proximity {
    /// This is the match of its candidate: the nearest anchor, within the
    /// window.
    pub open spec fn matches_in(
        self,
        anchors: Seq<Photo>,
        candidates: Seq<Photo>,
        window_secs: int,
    ) -> bool {
        &&& self.candidate < candidates.len()
        &&& candidates[self.candidate as int].timed()
        &&& is_nearest(anchors, candidates[self.candidate as int].secs(), self.anchor as int)
        &&& self.delta_secs == distance(
            candidates[self.candidate as int].secs(),
            anchors[self.anchor as int].secs(),
        )
        &&& self.delta_secs <= window_secs
        &&& self.same_camera == cameras_agree(
            candidates[self.candidate as int].capture,
            anchors[self.anchor as int].capture,
        )
    }
}

/// The photo has a time, and some anchor lies within the window around it.
pub open spec fn is_near_some(anchors: Seq<Photo>, photo: Photo, window_secs: int) -> bool {
    photo.timed() && exists|i: int|
        0 <= i < anchors.len() && (#[trigger] anchors[i]).timed() && distance(
            photo.secs(),
            anchors[i].secs(),
        ) <= window_secs
}

/// `matches` has the match of each of the first `n` candidates that is near
/// some anchor, and of no other, in the order of the candidates.
pub open spec fn are_matches(
    anchors: Seq<Photo>,
    candidates: Seq<Photo>,
    window_secs: int,
    n: int,
    matches: Seq<Proximity>,
) -> bool {
    &&& forall|k: int|
        0 <= k < matches.len() ==> (#[trigger] matches[k]).matches_in(
            anchors,
            candidates,
            window_secs,
        ) && matches[k].candidate < n
    &&& forall|k: int, l: int|
        0 <= k < l < matches.len() ==> (#[trigger] matches[k]).candidate < (
        #[trigger] matches[l]).candidate
    &&& forall|c: int|
        0 <= c < n && is_near_some(anchors, #[trigger] candidates[c], window_secs)
            ==> exists|k: int| 0 <= k < matches.len() && (#[trigger] matches[k]).candidate == c
}

/// The anchor nearest in time to `secs`, the first of them if there are more,
/// and its distance; `None` if no anchor has a time.
pub fn nearest_anchor(anchors: &[Photo], secs: i64) -> (nearest: Option<(usize, i64)>)
    requires
        within_reach(anchors@, secs as int),
    ensures
        nearest is None <==> forall|i: int|
            0 <= i < anchors@.len() ==> !(#[trigger] anchors@[i]).timed(),
        nearest is Some ==> is_nearest(anchors@, secs as int, (nearest->0).0 as int) && (
        nearest->0).1 == distance(secs as int, anchors@[(nearest->0).0 as int].secs()),
        nearest is Some <==> exists|i: int|
            0 <= i < anchors@.len() && (#[trigger] anchors@[i]).capture.secs is Some,
        nearest is Some ==> {
            let (n, d) = nearest->0;
            let at = anchors@[n as int].capture.secs;
            &&& n < anchors@.len() && at is Some
            &&& d >= 0 && (secs + d == at->0 || at->0 + d == secs)
            &&& forall|i: int|
                #![trigger anchors@[i]]
                0 <= i < anchors@.len() && anchors@[i].capture.secs is Some ==> d
                    <= anchors@[i].capture.secs->0 - secs || d <= secs
                    - anchors@[i].capture.secs->0
            &&& forall|i: int|
                #![trigger anchors@[i]]
                0 <= i < n && anchors@[i].capture.secs is Some ==> d
                    < anchors@[i].capture.secs->0 - secs || d < secs
                    - anchors@[i].capture.secs->0
        },
{
    let mut nearest: Option<(usize, i64)> = None;
    for i in 0..anchors.len()
        invariant
            within_reach(anchors@, secs as int),
            nearest is None ==> forall|j: int|
                0 <= j < i ==> !(#[trigger] anchors@[j]).timed(),
            nearest is Some ==> {
                let (n, d) = nearest->0;
                &&& n < i
                &&& is_nearest(anchors@.take(i as int), secs as int, n as int)
                &&& d == distance(secs as int, anchors@[n as int].secs())
            },
    {
        let ghost seen = anchors@.take(i as int);
        let ghost more = anchors@.take(i + 1);
        assert(forall|j: int| 0 <= j < i ==> #[trigger] more[j] == seen[j]);
        assert(forall|j: int| 0 <= j < i ==> #[trigger] more[j] == anchors@[j]);
        assert(more[i as int] == anchors@[i as int]);
        if let Some(at) = anchors[i].capture.secs {
            assert(anchors@[i as int].timed());
            let d: i64 = if secs <= at { at - secs } else { secs - at };
            let closer = match nearest {
                Some((_, least)) => d < least,
                None => true,
            };
            if closer {
                nearest = Some((i, d));
            }
        }
    }
    assert(anchors@.take(anchors@.len() as int) =~= anchors@);
    nearest
}

/// Whether both cameras are known and are of the same model.
fn same_camera(a: &Capture, b: &Capture) -> (r: bool)
    ensures
        r == cameras_agree(*a, *b),
{
    match (&a.camera, &b.camera) {
        (Some(x), Some(y)) => *x == *y,
        _ => false,
    }
}

/// Matches candidates with the anchors nearest to them in time. A candidate
/// without a time, or whose nearest anchor is further away than the window,
/// has no match.
pub fn match_candidates(anchors: &[Photo], candidates: &[Photo], window_secs: i64) -> (matches: Vec<
    Proximity,
>)
    requires
        forall|c: int|
            0 <= c < candidates@.len() && (#[trigger] candidates@[c]).timed() ==> within_reach(
                anchors@,
                candidates@[c].secs(),
            ),
    ensures
        are_matches(
            anchors@,
            candidates@,
            window_secs as int,
            candidates@.len() as int,
            matches@,
        ),
{
    let mut matches: Vec<Proximity> = Vec::new();
    for c in 0..candidates.len()
        invariant
            forall|c: int|
                0 <= c < candidates@.len() && (#[trigger] candidates@[c]).timed() ==> within_reach(
                    anchors@,
                    candidates@[c].secs(),
                ),
            are_matches(anchors@, candidates@, window_secs as int, c as int, matches@),
    {
        let ghost before = matches@;
        let photo = &candidates[c];
        if let Some(secs) = photo.capture.secs {
            assert(candidates@[c as int].timed());
            if let Some((anchor, delta_secs)) = nearest_anchor(anchors, secs) {
                if delta_secs <= window_secs {
                    let same_camera = same_camera(&photo.capture, &anchors[anchor].capture);
                    matches.push(Proximity { candidate: c, anchor, delta_secs, same_camera });
                    assert(matches@[before.len() as int].candidate == c);
                }
            }
        }
        assert forall|d: int|
            0 <= d < c + 1 && is_near_some(
                anchors@,
                #[trigger] candidates@[d],
                window_secs as int,
            ) implies exists|k: int|
            0 <= k < matches@.len() && (#[trigger] matches@[k]).candidate == d by {
            if d < c {
                let k = choose|k: int|
                    0 <= k < before.len() && (#[trigger] before[k]).candidate == d;
                assert(matches@[k] == before[k]);
            }
        }
    }
    matches
}

/// The matches with the greatest keys, the greatest first, equal ones in the
/// order they came: at most as many as go on to the comparison of colors.
///
/// A key stands for a score. It is any number that grows with the score, such
/// as the bits of a floating point number that is not negative.
pub fn shortlist(matches: &[Proximity], keys: &[u32]) -> (listed: Vec<Proximity>)
    requires
        matches@.len() == keys@.len(),
    ensures
        is_ranked(matches@, keys@, STAGE1_TOP_N as nat, listed@),
        listed@.len() == if matches@.len() <= 200 { matches@.len() } else { 200 },
{
    take_ranked(matches, keys, STAGE1_TOP_N)
}

/// A candidate is matched exactly when it has a time and some anchor lies
/// within the window around it.
pub proof fn law_matched_iff_near(
    anchors: Seq<Photo>,
    candidates: Seq<Photo>,
    window_secs: int,
    matches: Seq<Proximity>,
    c: int,
)
    requires
        are_matches(anchors, candidates, window_secs, candidates.len() as int, matches),
        0 <= c < candidates.len(),
    ensures
        is_near_some(anchors, candidates[c], window_secs) <==> exists|k: int|
            0 <= k < matches.len() && (#[trigger] matches[k]).candidate == c,
{
    if exists|k: int| 0 <= k < matches.len() && (#[trigger] matches[k]).candidate == c {
        let k = choose|k: int| 0 <= k < matches.len() && (#[trigger] matches[k]).candidate == c;
        assert(matches[k].matches_in(anchors, candidates, window_secs));
        assert(anchors[matches[k].anchor as int].timed());
    }
}

/// No anchor is nearer in time than the one a candidate is matched with.
pub proof fn law_match_is_the_nearest(
    anchors: Seq<Photo>,
    candidates: Seq<Photo>,
    window_secs: int,
    m: Proximity,
    i: int,
)
    requires
        m.matches_in(anchors, candidates, window_secs),
        0 <= i < anchors.len(),
        anchors[i].timed(),
    ensures
        m.delta_secs <= distance(candidates[m.candidate as int].secs(), anchors[i].secs()),
{
}

/// There is one list of matches.
pub proof fn law_matches_are_unique(
    anchors: Seq<Photo>,
    candidates: Seq<Photo>,
    window_secs: int,
    a: Seq<Proximity>,
    b: Seq<Proximity>,
)
    requires
        are_matches(anchors, candidates, window_secs, candidates.len() as int, a),
        are_matches(anchors, candidates, window_secs, candidates.len() as int, b),
    ensures
        a == b,
{
    assert forall|m: Proximity| #[trigger] a.contains(m) <==> b.contains(m) by {
        if a.contains(m) {
            lemma_match_is_listed(anchors, candidates, window_secs, b, m);
        }
        if b.contains(m) {
            lemma_match_is_listed(anchors, candidates, window_secs, a, m);
        }
    }
    lemma_sorted_is_unique(a, b, by_candidate());
}

/// A wider window keeps every candidate that a narrower one keeps.
pub proof fn law_wider_window_keeps_more(
    anchors: Seq<Photo>,
    photo: Photo,
    narrow: int,
    wide: int,
)
    requires
        narrow <= wide,
        is_near_some(anchors, photo, narrow),
    ensures
        is_near_some(anchors, photo, wide),
{
}

/// Matches that lie within a window.
pub open spec fn lies_within(window_secs: int) -> spec_fn(Proximity) -> bool {
    |m: Proximity| m.delta_secs <= window_secs
}

/// A narrower window leaves those matches of a wider one that lie within it, as
/// they are and in the same order.
pub proof fn law_narrower_window_filters_matches(
    anchors: Seq<Photo>,
    candidates: Seq<Photo>,
    narrow: int,
    wide: int,
    few: Seq<Proximity>,
    many: Seq<Proximity>,
)
    requires
        narrow <= wide,
        are_matches(anchors, candidates, narrow, candidates.len() as int, few),
        are_matches(anchors, candidates, wide, candidates.len() as int, many),
    ensures
        few == many.filter(lies_within(narrow)),
{
    let stays = lies_within(narrow);
    lemma_filtered_is_sorted(many, by_candidate(), stays);
    assert forall|m: Proximity| #[trigger] few.contains(m) <==> many.filter(stays).contains(m) by {
        if few.contains(m) {
            lemma_match_is_listed(anchors, candidates, wide, many, m);
        }
        if many.filter(stays).contains(m) {
            assert(many.contains(m) && stays(m));
            lemma_match_is_listed(anchors, candidates, narrow, few, m);
        }
    }
    lemma_sorted_is_unique(few, many.filter(stays), by_candidate());
}

/// Where all matches have a place on the short list, a narrower window leaves
/// those of a wider one's list that lie within it, in the same order. The keys
/// come of the matches.
pub proof fn law_narrower_window_filters_shortlist(
    anchors: Seq<Photo>,
    candidates: Seq<Photo>,
    narrow: int,
    wide: int,
    few: Seq<Proximity>,
    many: Seq<Proximity>,
    key: spec_fn(Proximity) -> u32,
    few_listed: Seq<Proximity>,
    many_listed: Seq<Proximity>,
)
    requires
        narrow <= wide,
        are_matches(anchors, candidates, narrow, candidates.len() as int, few),
        are_matches(anchors, candidates, wide, candidates.len() as int, many),
        many.len() <= STAGE1_TOP_N,
        is_ranked(few, few.map_values(key), STAGE1_TOP_N as nat, few_listed),
        is_ranked(many, many.map_values(key), STAGE1_TOP_N as nat, many_listed),
    ensures
        few_listed == many_listed.filter(lies_within(narrow)),
{
    law_narrower_window_filters_matches(anchors, candidates, narrow, wide, few, many);
    lemma_filter_keeps_ranking(
        many,
        key,
        by_candidate(),
        lies_within(narrow),
        STAGE1_TOP_N as nat,
        many_listed,
        few_listed,
    );
}

/// Without a confirmed photo that has a time nothing is matched.
pub proof fn law_no_anchors_no_matches(
    anchors: Seq<Photo>,
    candidates: Seq<Photo>,
    window_secs: int,
    matches: Seq<Proximity>,
)
    requires
        are_matches(anchors, candidates, window_secs, candidates.len() as int, matches),
        forall|i: int| 0 <= i < anchors.len() ==> !(#[trigger] anchors[i]).timed(),
    ensures
        matches.len() == 0,
{
    if matches.len() > 0 {
        assert(matches[0].matches_in(anchors, candidates, window_secs));
    }
}

/// The short list is no longer than it may be, and what is on it is a match,
/// within the window, of one candidate each.
pub proof fn law_shortlist_holds_matches(
    anchors: Seq<Photo>,
    candidates: Seq<Photo>,
    window_secs: int,
    matches: Seq<Proximity>,
    keys: Seq<u32>,
    listed: Seq<Proximity>,
)
    requires
        are_matches(anchors, candidates, window_secs, candidates.len() as int, matches),
        matches.len() == keys.len(),
        is_ranked(matches, keys, STAGE1_TOP_N as nat, listed),
    ensures
        listed.len() == if matches.len() <= STAGE1_TOP_N { matches.len() } else {
            STAGE1_TOP_N as nat
        },
        forall|i: int|
            0 <= i < listed.len() ==> (#[trigger] listed[i]).matches_in(
                anchors,
                candidates,
                window_secs,
            ),
        forall|i: int, j: int|
            0 <= i < j < listed.len() ==> (#[trigger] listed[i]).candidate != (
            #[trigger] listed[j]).candidate,
{
    let order = choose|order: Seq<usize>|
        #[trigger] is_ranking(keys, order) && listed == taken_in_order(
            matches,
            order,
            STAGE1_TOP_N as nat,
        );
    assert forall|i: int| 0 <= i < listed.len() implies (#[trigger] listed[i]).matches_in(
        anchors,
        candidates,
        window_secs,
    ) by {
        assert(listed[i] == matches[order[i] as int]);
    }
    assert forall|i: int, j: int| 0 <= i < j < listed.len() implies (
    #[trigger] listed[i]).candidate != (#[trigger] listed[j]).candidate by {
        assert(outranks(keys, order[i] as int, order[j] as int));
        let (p, q) = (order[i] as int, order[j] as int);
        assert(listed[i] == matches[p] && listed[j] == matches[q]);
        assert(p != q);
        if p < q {
            assert(matches[p].candidate < matches[q].candidate);
        } else {
            assert(matches[q].candidate < matches[p].candidate);
        }
    }
}

/// The order of the candidates.
pub(crate) open spec fn by_candidate() -> spec_fn(Proximity, Proximity) -> bool {
    |a: Proximity, b: Proximity| a.candidate < b.candidate
}

/// A list of matches has every match there is.
proof fn lemma_match_is_listed(
    anchors: Seq<Photo>,
    candidates: Seq<Photo>,
    window_secs: int,
    matches: Seq<Proximity>,
    m: Proximity,
)
    requires
        are_matches(anchors, candidates, window_secs, candidates.len() as int, matches),
        m.matches_in(anchors, candidates, window_secs),
    ensures
        matches.contains(m),
{
    let c = m.candidate as int;
    assert(anchors[m.anchor as int].timed());
    assert(is_near_some(anchors, candidates[c], window_secs));
    let k = choose|k: int| 0 <= k < matches.len() && (#[trigger] matches[k]).candidate == c;
    assert(matches[k].matches_in(anchors, candidates, window_secs));
    let (i, j) = (m.anchor as int, matches[k].anchor as int);
    assert(anchors[i].timed() && anchors[j].timed());
    assert(i == j);
    assert(matches[k] == m);
}

/// The distance of two moments is the whole difference between them: as much
/// has to pass after the earlier one to reach the later one. So distances add up
/// along the way, and only equal moments have none.
pub proof fn law_distance_is_the_whole_difference(a: int, b: int, c: int)
    ensures
        distance(a, b) >= 0,
        a + distance(a, b) == b || b + distance(a, b) == a,
        distance(a, b) == distance(b, a),
        distance(a, b) == 0 <==> a == b,
        a <= b <= c ==> distance(a, c) == distance(a, b) + distance(b, c),
{
}

/// A matched candidate was taken no more than the window before or after its
/// anchor, so many seconds away as the match says. No anchor lies nearer, and
/// those that come before it in the list lie further away. The cameras are the
/// same exactly when both are known and have the same name.
pub proof fn law_match_lies_within_the_window(
    anchors: Seq<Photo>,
    candidates: Seq<Photo>,
    window_secs: int,
    m: Proximity,
    i: int,
)
    requires
        m.matches_in(anchors, candidates, window_secs),
    ensures
        m.candidate < candidates.len() && m.anchor < anchors.len(),
        ({
            let (candidate, anchor) = (
                candidates[m.candidate as int].capture,
                anchors[m.anchor as int].capture,
            );
            let (c, t) = (candidate.secs->0, anchor.secs->0);
            &&& candidate.secs is Some && anchor.secs is Some
            &&& t - window_secs <= c <= t + window_secs
            &&& m.delta_secs >= 0 && (c + m.delta_secs == t || t + m.delta_secs == c)
            &&& 0 <= i < anchors.len() && anchors[i].capture.secs is Some ==> m.delta_secs
                <= anchors[i].capture.secs->0 - c || m.delta_secs <= c
                - anchors[i].capture.secs->0
            &&& 0 <= i < m.anchor && anchors[i].capture.secs is Some ==> m.delta_secs
                < anchors[i].capture.secs->0 - c || m.delta_secs < c - anchors[i].capture.secs->0
            &&& m.same_camera <==> candidate.camera is Some && anchor.camera is Some
                && candidate.camera->0@ == anchor.camera->0@
        }),
{
    if 0 <= i < anchors.len() && anchors[i].capture.secs is Some {
        assert(anchors[i].timed());
    }
}

/// A candidate is matched exactly when it has a time and some anchor has one
/// that is no more than the window before or after it.
pub proof fn law_matched_iff_within_the_window(
    anchors: Seq<Photo>,
    candidates: Seq<Photo>,
    window_secs: int,
    matches: Seq<Proximity>,
    c: int,
)
    requires
        are_matches(anchors, candidates, window_secs, candidates.len() as int, matches),
        0 <= c < candidates.len(),
    ensures
        (exists|k: int| 0 <= k < matches.len() && (#[trigger] matches[k]).candidate == c) <==> {
            let secs = candidates[c].capture.secs;
            &&& secs is Some
            &&& exists|i: int|
                #![trigger anchors[i]]
                0 <= i < anchors.len() && anchors[i].capture.secs is Some
                    && anchors[i].capture.secs->0 - window_secs <= secs->0
                    <= anchors[i].capture.secs->0 + window_secs
        },
{
    law_matched_iff_near(anchors, candidates, window_secs, matches, c);
    let secs = candidates[c].capture.secs;
    if is_near_some(anchors, candidates[c], window_secs) {
        let i = choose|i: int|
            0 <= i < anchors.len() && (#[trigger] anchors[i]).timed() && distance(
                candidates[c].secs(),
                anchors[i].secs(),
            ) <= window_secs;
        assert(anchors[i].capture.secs->0 - window_secs <= secs->0 <= anchors[i].capture.secs->0
            + window_secs);
    }
    if secs is Some && exists|i: int|
        #![trigger anchors[i]]
        0 <= i < anchors.len() && anchors[i].capture.secs is Some && anchors[i].capture.secs->0
            - window_secs <= secs->0 <= anchors[i].capture.secs->0 + window_secs {
        let i = choose|i: int|
            #![trigger anchors[i]]
            0 <= i < anchors.len() && anchors[i].capture.secs is Some
                && anchors[i].capture.secs->0 - window_secs <= secs->0
                <= anchors[i].capture.secs->0 + window_secs;
        assert(anchors[i].timed());
    }
}

/// Matches come in the order of the candidates, each candidate once, and each is
/// the match of its candidate.
pub proof fn law_matches_come_in_order(
    anchors: Seq<Photo>,
    candidates: Seq<Photo>,
    window_secs: int,
    matches: Seq<Proximity>,
    k: int,
    l: int,
)
    requires
        are_matches(anchors, candidates, window_secs, candidates.len() as int, matches),
        0 <= k < matches.len(),
    ensures
        matches[k].matches_in(anchors, candidates, window_secs),
        k < l < matches.len() ==> matches[k].candidate < matches[l].candidate,
{
}

/// Nothing more is asked of the times of photos that are compared than that
/// their differences are within 64 bits.
pub proof fn law_reach_is_that_of_64_bits(anchors: Seq<Photo>, secs: int)
    requires
        forall|i: int|
            #![trigger anchors[i]]
            0 <= i < anchors.len() && anchors[i].capture.secs is Some
                ==> anchors[i].capture.secs->0 - secs <= i64::MAX && secs
                - anchors[i].capture.secs->0 <= i64::MAX,
    ensures
        within_reach(anchors, secs),
{
}

/// The short list has at most 200 matches, and as many as there are below that.
pub proof fn law_shortlist_has_two_hundred_places(
    matches: Seq<Proximity>,
    keys: Seq<u32>,
    listed: Seq<Proximity>,
)
    requires
        matches.len() == keys.len(),
        is_ranked(matches, keys, STAGE1_TOP_N as nat, listed),
    ensures
        listed.len() == if matches.len() <= 200 { matches.len() } else { 200 },
{
}

} // verus!
