//! Ranked candidates, and the colors that are compared for them.
use std::path::PathBuf;

use vstd::prelude::*;
use vstd::string::*;

use crate::color::ColorHistogram;
use crate::humanize::{humanize_delta, humanized};
use crate::paths::{file_name, file_name_of, path_of};
use crate::proximity::{
    are_matches, by_candidate, law_narrower_window_filters_matches, lies_within, Photo, Proximity,
    STAGE1_TOP_N,
};
use crate::ranking::{
    by_key, is_ranked, is_ranking, law_ranked_items_are_the_items, lemma_filter_keeps_ranking,
    lemma_filter_of_mapped, lemma_filtered_is_sorted, outranks, rank_descending, taken_in_order,
};
use crate::text::{decimal, law_decimal_grows_by_digits, push_decimal};

verus! {

/// A score between 0 and about 1.
#[derive(Clone, Copy, Debug, PartialEq, Eq, Structural)]
pub struct Score {
    /// The bits of the score as a single precision number, which grow with it.
    pub bits: u32,
    /// The score in whole percent.
    pub percent: u32,
}

/// A photo that may show the person, and why.
#[derive(Debug)]
pub struct MetaSimCandidate {
    pub path: PathBuf,
    /// The blended score, which may be slightly over 1 where time, camera and
    /// color all agree. It is shown as no more than 100 percent.
    pub score: Score,
    /// The confirmed photo this candidate was scored against: the nearest one
    /// in time.
    pub anchor: PathBuf,
    pub delta_secs: i64,
    pub same_camera: bool,
    /// `None` when the colors of either photo could not be told, as those of a
    /// video or of a file that failed to decode.
    pub color_score: Option<Score>,
}

impl Clone for MetaSimCandidate {
    fn clone(&self) -> (copy: Self)
        ensures
            copy == *self,
    {
        MetaSimCandidate {
            path: self.path.clone(),
            score: self.score,
            anchor: self.anchor.clone(),
            delta_secs: self.delta_secs,
            same_camera: self.same_camera,
            color_score: self.color_score,
        }
    }
}

/// The file name of a path, empty if it has none.
pub open spec fn shown_name(name: Option<Seq<char>>) -> Seq<char> {
    match name {
        Some(name) => name,
        None => Seq::empty(),
    }
}

/// The percent that are shown of a score, which is not over 100.
pub open spec fn shown_percent(percent: u32) -> nat {
    if percent <= 100 {
        percent as nat
    } else {
        100
    }
}

/// How a score is explained: `62% - 2m14s from IMG_0234.jpg, same camera, 71%
/// color match`.
pub open spec fn explanation(
    percent: u32,
    delta_secs: int,
    anchor_name: Seq<char>,
    same_camera: bool,
    color_percent: Option<u32>,
) -> Seq<char> {
    decimal(shown_percent(percent)) + "% - "@ + humanized(delta_secs) + " from "@ + anchor_name
        + ", "@ + (if same_camera {
        "same camera"@
    } else {
        "different/unknown camera"@
    }) + ", "@ + (match color_percent {
        Some(percent) => decimal(percent as nat) + "% color match"@,
        None => "color not compared"@,
    })
}

impl MetaSimCandidate {
    /// How the candidate's score is explained.
    pub open spec fn explained(self) -> Seq<char> {
        explanation(
            self.score.percent,
            self.delta_secs as int,
            shown_name(file_name_of(path_of(&self.anchor))),
            self.same_camera,
            match self.color_score {
                Some(score) => Some(score.percent),
                None => None,
            },
        )
    }

    /// Human-readable breakdown for a tooltip, such as
    /// `62% - 2m14s from IMG_0234.jpg, same camera, 71% color match`.
    pub fn explain(&self) -> (text: String)
        ensures
            text@ == self.explained(),
    {
        let anchor_name = match file_name(self.anchor.as_path()) {
            Some(name) => name,
            None => String::new(),
        };
        let color_percent = match self.color_score {
            Some(score) => Some(score.percent),
            None => None,
        };
        explain_parts(
            self.score.percent,
            self.delta_secs,
            anchor_name.as_str(),
            self.same_camera,
            color_percent,
        )
    }
}

/// The explanation of a score from its parts.
pub fn explain_parts(
    percent: u32,
    delta_secs: i64,
    anchor_name: &str,
    same_camera: bool,
    color_percent: Option<u32>,
) -> (text: String)
    ensures
        text@ == explanation(
            percent,
            delta_secs as int,
            anchor_name@,
            same_camera,
            color_percent,
        ),
{
    let mut text = String::new();
    push_decimal(&mut text, if percent <= 100 { percent as u64 } else { 100 });
    text.append("% - ");
    text.append(humanize_delta(delta_secs).as_str());
    text.append(" from ");
    text.append(anchor_name);
    text.append(", ");
    text.append(if same_camera { "same camera" } else { "different/unknown camera" });
    text.append(", ");
    match color_percent {
        Some(percent) => {
            push_decimal(&mut text, percent as u64);
            text.append("% color match");
        },
        None => {
            text.append("color not compared");
        },
    }
    assert(text@ =~= explanation(
        percent,
        delta_secs as int,
        anchor_name@,
        same_camera,
        color_percent,
    ));
    text
}

/// An explanation tells the distance in time, the anchor's file name, the
/// camera, the color and the score, and nothing else: not the candidate's path,
/// nor the directory of the anchor. Scores of 100 percent and more read alike.
pub proof fn law_explanation_tells_no_more(a: MetaSimCandidate, b: MetaSimCandidate)
    requires
        a.score.percent == b.score.percent || (a.score.percent >= 100 && b.score.percent >= 100),
        a.delta_secs == b.delta_secs,
        file_name_of(path_of(&a.anchor)) == file_name_of(path_of(&b.anchor)),
        a.same_camera == b.same_camera,
        a.color_score == b.color_score,
    ensures
        a.explained() == b.explained(),
{
}

/// The candidate that a match becomes once it is scored.
pub open spec fn scored(
    anchors: Seq<Photo>,
    candidates: Seq<Photo>,
    m: Proximity,
    score: Score,
    color_score: Option<Score>,
) -> MetaSimCandidate {
    MetaSimCandidate {
        path: candidates[m.candidate as int].path,
        score,
        anchor: anchors[m.anchor as int].path,
        delta_secs: m.delta_secs,
        same_camera: m.same_camera,
        color_score,
    }
}

/// The candidates that matches become once they are scored.
pub open spec fn all_scored(
    anchors: Seq<Photo>,
    candidates: Seq<Photo>,
    listed: Seq<Proximity>,
    scores: Seq<Score>,
    color_scores: Seq<Option<Score>>,
) -> Seq<MetaSimCandidate> {
    Seq::new(
        listed.len(),
        |i: int| scored(anchors, candidates, listed[i], scores[i], color_scores[i]),
    )
}

/// The keys by which scores are ranked.
pub open spec fn score_keys(scores: Seq<Score>) -> Seq<u32> {
    scores.map_values(|score: Score| score.bits)
}

/// The scored candidates, the greatest score first, equal scores in the order
/// of the short list.
pub fn rank_scored(
    anchors: &[Photo],
    candidates: &[Photo],
    listed: &[Proximity],
    scores: &[Score],
    color_scores: &[Option<Score>],
) -> (results: Vec<MetaSimCandidate>)
    requires
        scores@.len() == listed@.len(),
        color_scores@.len() == listed@.len(),
        forall|i: int|
            0 <= i < listed@.len() ==> (#[trigger] listed@[i]).candidate < candidates@.len()
                && listed@[i].anchor < anchors@.len(),
    ensures
        is_ranked(
            all_scored(anchors@, candidates@, listed@, scores@, color_scores@),
            score_keys(scores@),
            listed@.len(),
            results@,
        ),
{
    let mut keys: Vec<u32> = Vec::new();
    for i in 0..scores.len()
        invariant
            keys@ == score_keys(scores@).take(i as int),
    {
        keys.push(scores[i].bits);
        assert(keys@ =~= score_keys(scores@).take(i + 1));
    }
    assert(keys@ =~= score_keys(scores@));
    let order = rank_descending(keys.as_slice());
    let ghost items = all_scored(anchors@, candidates@, listed@, scores@, color_scores@);
    let mut results: Vec<MetaSimCandidate> = Vec::new();
    for i in 0..order.len()
        invariant
            is_ranking(keys@, order@),
            keys@.len() == listed@.len(),
            scores@.len() == listed@.len(),
            color_scores@.len() == listed@.len(),
            forall|i: int|
                0 <= i < listed@.len() ==> (#[trigger] listed@[i]).candidate < candidates@.len()
                    && listed@[i].anchor < anchors@.len(),
            items == all_scored(anchors@, candidates@, listed@, scores@, color_scores@),
            results@.len() == i,
            forall|k: int| 0 <= k < i ==> results@[k] == items[#[trigger] order@[k] as int],
    {
        let at: usize = order[i];
        let m = listed[at];
        results.push(
            MetaSimCandidate {
                path: candidates[m.candidate].path.clone(),
                score: scores[at],
                anchor: anchors[m.anchor].path.clone(),
                delta_secs: m.delta_secs,
                same_camera: m.same_camera,
                color_score: color_scores[at],
            },
        );
    }
    assert(results@ =~= taken_in_order(items, order@, listed@.len()));
    results
}

/// Results come by score, the greatest first.
pub proof fn law_results_come_by_score(
    anchors: Seq<Photo>,
    candidates: Seq<Photo>,
    listed: Seq<Proximity>,
    scores: Seq<Score>,
    color_scores: Seq<Option<Score>>,
    results: Seq<MetaSimCandidate>,
)
    requires
        scores.len() == listed.len(),
        color_scores.len() == listed.len(),
        is_ranked(
            all_scored(anchors, candidates, listed, scores, color_scores),
            score_keys(scores),
            listed.len(),
            results,
        ),
    ensures
        results.len() == listed.len(),
        forall|i: int, j: int|
            0 <= i < j < results.len() ==> (#[trigger] results[i]).score.bits >= (
            #[trigger] results[j]).score.bits,
{
    let keys = score_keys(scores);
    let items = all_scored(anchors, candidates, listed, scores, color_scores);
    let order = choose|order: Seq<usize>|
        #[trigger] is_ranking(keys, order) && results == taken_in_order(
            items,
            order,
            listed.len(),
        );
    assert forall|i: int, j: int| 0 <= i < j < results.len() implies (
    #[trigger] results[i]).score.bits >= (#[trigger] results[j]).score.bits by {
        assert(outranks(keys, order[i] as int, order[j] as int));
        assert(results[i] == items[order[i] as int]);
        assert(results[j] == items[order[j] as int]);
    }
}

/// The result is made of this match.
pub open spec fn comes_from(
    result: MetaSimCandidate,
    anchors: Seq<Photo>,
    candidates: Seq<Photo>,
    m: Proximity,
) -> bool {
    &&& result.path == candidates[m.candidate as int].path
    &&& result.anchor == anchors[m.anchor as int].path
    &&& result.delta_secs == m.delta_secs
    &&& result.same_camera == m.same_camera
}

/// Some match is behind a result.
pub open spec fn has_match(
    result: MetaSimCandidate,
    anchors: Seq<Photo>,
    candidates: Seq<Photo>,
    window_secs: int,
) -> bool {
    exists|m: Proximity|
        #[trigger] m.matches_in(anchors, candidates, window_secs) && comes_from(
            result,
            anchors,
            candidates,
            m,
        )
}

/// Every result is a candidate within the window of the anchor it names, and
/// that anchor is the nearest one in time.
pub proof fn law_results_are_near(
    anchors: Seq<Photo>,
    candidates: Seq<Photo>,
    window_secs: int,
    listed: Seq<Proximity>,
    scores: Seq<Score>,
    color_scores: Seq<Option<Score>>,
    results: Seq<MetaSimCandidate>,
)
    requires
        scores.len() == listed.len(),
        color_scores.len() == listed.len(),
        forall|i: int|
            0 <= i < listed.len() ==> (#[trigger] listed[i]).matches_in(
                anchors,
                candidates,
                window_secs,
            ),
        is_ranked(
            all_scored(anchors, candidates, listed, scores, color_scores),
            score_keys(scores),
            listed.len(),
            results,
        ),
    ensures
        forall|i: int|
            0 <= i < results.len() ==> has_match(
                #[trigger] results[i],
                anchors,
                candidates,
                window_secs,
            ),
{
    let items = all_scored(anchors, candidates, listed, scores, color_scores);
    let order = choose|order: Seq<usize>|
        #[trigger] is_ranking(score_keys(scores), order) && results == taken_in_order(
            items,
            order,
            listed.len(),
        );
    assert forall|i: int| 0 <= i < results.len() implies has_match(
        #[trigger] results[i],
        anchors,
        candidates,
        window_secs,
    ) by {
        let m = listed[order[i] as int];
        assert(results[i] == items[order[i] as int]);
        assert(m.matches_in(anchors, candidates, window_secs));
        assert(comes_from(results[i], anchors, candidates, m));
    }
}

/// The candidate that a match becomes, where its scores come of the match.
pub open spec fn scored_by(
    anchors: Seq<Photo>,
    candidates: Seq<Photo>,
    score: spec_fn(Proximity) -> Score,
    color_score: spec_fn(Proximity) -> Option<Score>,
) -> spec_fn(Proximity) -> MetaSimCandidate {
    |m: Proximity| scored(anchors, candidates, m, score(m), color_score(m))
}

/// The results for a short list, where the scores come of the matches.
pub open spec fn are_results(
    anchors: Seq<Photo>,
    candidates: Seq<Photo>,
    listed: Seq<Proximity>,
    score: spec_fn(Proximity) -> Score,
    color_score: spec_fn(Proximity) -> Option<Score>,
    results: Seq<MetaSimCandidate>,
) -> bool {
    let scores = listed.map_values(score);
    is_ranked(
        all_scored(anchors, candidates, listed, scores, listed.map_values(color_score)),
        score_keys(scores),
        listed.len(),
        results,
    )
}

/// Results that lie within a window.
pub open spec fn result_lies_within(window_secs: int) -> spec_fn(MetaSimCandidate) -> bool {
    |result: MetaSimCandidate| result.delta_secs <= window_secs
}

/// Where all matches have a place on the short list, a narrower window gives
/// those results of a wider one that lie within it: the same candidates in the
/// same order, with the same scores, anchors, cameras and colors.
pub proof fn law_narrower_window_filters_results(
    anchors: Seq<Photo>,
    candidates: Seq<Photo>,
    narrow: int,
    wide: int,
    few: Seq<Proximity>,
    many: Seq<Proximity>,
    key: spec_fn(Proximity) -> u32,
    few_listed: Seq<Proximity>,
    many_listed: Seq<Proximity>,
    score: spec_fn(Proximity) -> Score,
    color_score: spec_fn(Proximity) -> Option<Score>,
    few_results: Seq<MetaSimCandidate>,
    many_results: Seq<MetaSimCandidate>,
)
    requires
        narrow <= wide,
        are_matches(anchors, candidates, narrow, candidates.len() as int, few),
        are_matches(anchors, candidates, wide, candidates.len() as int, many),
        many.len() <= STAGE1_TOP_N,
        is_ranked(few, few.map_values(key), STAGE1_TOP_N as nat, few_listed),
        is_ranked(many, many.map_values(key), STAGE1_TOP_N as nat, many_listed),
        are_results(anchors, candidates, few_listed, score, color_score, few_results),
        are_results(anchors, candidates, many_listed, score, color_score, many_results),
    ensures
        few_results == many_results.filter(result_lies_within(narrow)),
{
    let stays = lies_within(narrow);
    law_narrower_window_filters_matches(anchors, candidates, narrow, wide, few, many);
    lemma_filter_keeps_ranking(
        many,
        key,
        by_candidate(),
        stays,
        STAGE1_TOP_N as nat,
        many_listed,
        few_listed,
    );
    let before = by_key(key, by_candidate());
    lemma_filtered_is_sorted(many_listed, before, stays);
    let few_ranked = lemma_results_are_ranked_matches(
        anchors,
        candidates,
        few_listed,
        score,
        color_score,
        few_results,
    );
    let many_ranked = lemma_results_are_ranked_matches(
        anchors,
        candidates,
        many_listed,
        score,
        color_score,
        many_results,
    );
    lemma_filter_keeps_ranking(
        many_listed,
        bits_of(score),
        before,
        stays,
        STAGE1_TOP_N as nat,
        many_ranked,
        few_ranked,
    );
    lemma_filter_of_mapped(
        many_ranked,
        scored_by(anchors, candidates, score, color_score),
        stays,
        result_lies_within(narrow),
    );
}

/// The keys by which matches are ranked, where their scores come of them.
spec fn bits_of(score: spec_fn(Proximity) -> Score) -> spec_fn(Proximity) -> u32 {
    |m: Proximity| score(m).bits
}

/// Results are the ranked matches, scored.
proof fn lemma_results_are_ranked_matches(
    anchors: Seq<Photo>,
    candidates: Seq<Photo>,
    listed: Seq<Proximity>,
    score: spec_fn(Proximity) -> Score,
    color_score: spec_fn(Proximity) -> Option<Score>,
    results: Seq<MetaSimCandidate>,
) -> (ranked: Seq<Proximity>)
    requires
        listed.len() <= STAGE1_TOP_N,
        are_results(anchors, candidates, listed, score, color_score, results),
    ensures
        is_ranked(listed, listed.map_values(bits_of(score)), STAGE1_TOP_N as nat, ranked),
        results == ranked.map_values(scored_by(anchors, candidates, score, color_score)),
{
    let scores = listed.map_values(score);
    let color_scores = listed.map_values(color_score);
    let items = all_scored(anchors, candidates, listed, scores, color_scores);
    let keys = listed.map_values(bits_of(score));
    assert(score_keys(scores) =~= keys);
    let order = choose|order: Seq<usize>|
        #[trigger] is_ranking(score_keys(scores), order) && results == taken_in_order(
            items,
            order,
            listed.len(),
        );
    let ranked = taken_in_order(listed, order, STAGE1_TOP_N as nat);
    assert(is_ranking(keys, order));
    assert(results =~= ranked.map_values(scored_by(anchors, candidates, score, color_score)));
    ranked
}

/// The palettes of anchors, each computed when it is first needed.
#[derive(Debug)]
pub struct PaletteCache {
    slots: Vec<Option<ColorHistogram>>,
}

impl View for PaletteCache {
    type V = Seq<Option<ColorHistogram>>;

    closed spec fn view(&self) -> Seq<Option<ColorHistogram>> {
        self.slots@
    }
}

impl PaletteCache {
    /// Every palette that is there has counts that add up.
    pub open spec fn well_formed(self) -> bool {
        forall|i: int|
            0 <= i < self@.len() && #[trigger] self@[i] is Some ==> self@[i]->0.well_formed()
    }

    /// No palette of any of `len` anchors.
    pub fn new(len: usize) -> (cache: PaletteCache)
        ensures
            cache.well_formed(),
            cache@ == Seq::new(len as nat, |i: int| None::<ColorHistogram>),
    {
        let mut slots: Vec<Option<ColorHistogram>> = Vec::new();
        for i in 0..len
            invariant
                slots@ == Seq::new(i as nat, |i: int| None::<ColorHistogram>),
        {
            slots.push(None);
            assert(slots@ =~= Seq::new((i + 1) as nat, |i: int| None::<ColorHistogram>));
        }
        PaletteCache { slots }
    }

    /// Whether the palette of an anchor is still to be had.
    pub fn is_missing(&self, anchor: usize) -> (missing: bool)
        requires
            anchor < self@.len(),
        ensures
            missing == (self@[anchor as int] is None),
    {
        self.slots[anchor].is_none()
    }

    /// Keeps what the anchor's image gave. A palette that is there already
    /// stays.
    pub fn record(&mut self, anchor: usize, palette: Option<ColorHistogram>)
        requires
            old(self).well_formed(),
            anchor < old(self)@.len(),
            palette is Some ==> palette->0.well_formed(),
        ensures
            final(self).well_formed(),
            final(self)@ == if old(self)@[anchor as int] is None {
                old(self)@.update(anchor as int, palette)
            } else {
                old(self)@
            },
    {
        if self.is_missing(anchor) {
            self.slots.set(anchor, palette);
        }
    }

    /// The palette of an anchor, if it is there.
    pub fn get(&self, anchor: usize) -> (palette: Option<&ColorHistogram>)
        requires
            self.well_formed(),
            anchor < self@.len(),
        ensures
            palette is Some <==> self@[anchor as int] is Some,
            palette is Some ==> *palette->0 == self@[anchor as int]->0
                && palette->0.well_formed(),
    {
        match &self.slots[anchor] {
            Some(palette) => Some(palette),
            None => None,
        }
    }
}

/// Results are the matches of the short list, each once: with the path of its
/// candidate and of its anchor, the match's distance and camera, and the score
/// and color that were computed for it. The places of the short list that they
/// come from are returned: by score from the greatest down, those of one score in
/// the order of the list.
pub proof fn law_results_are_scored_matches(
    anchors: Seq<Photo>,
    candidates: Seq<Photo>,
    listed: Seq<Proximity>,
    scores: Seq<Score>,
    color_scores: Seq<Option<Score>>,
    results: Seq<MetaSimCandidate>,
) -> (order: Seq<usize>)
    requires
        scores.len() == listed.len(),
        color_scores.len() == listed.len(),
        is_ranked(
            all_scored(anchors, candidates, listed, scores, color_scores),
            score_keys(scores),
            listed.len(),
            results,
        ),
    ensures
        results.len() == listed.len(),
        order.len() == listed.len(),
        order.no_duplicates(),
        forall|i: int| 0 <= i < order.len() ==> #[trigger] order[i] < listed.len(),
        forall|i: int|
            0 <= i < results.len() ==> {
                let at = order[i] as int;
                let result = #[trigger] results[i];
                &&& result.path == candidates[listed[at].candidate as int].path
                &&& result.score == scores[at]
                &&& result.anchor == anchors[listed[at].anchor as int].path
                &&& result.delta_secs == listed[at].delta_secs
                &&& result.same_camera == listed[at].same_camera
                &&& result.color_score == color_scores[at]
            },
        forall|i: int, j: int|
            0 <= i < j < order.len() ==> {
                let (a, b) = (#[trigger] order[i] as int, #[trigger] order[j] as int);
                scores[a].bits > scores[b].bits || (scores[a].bits == scores[b].bits && a < b)
            },
{
    let items = all_scored(anchors, candidates, listed, scores, color_scores);
    let keys = score_keys(scores);
    let order = law_ranked_items_are_the_items(items, keys, listed.len(), results);
    assert forall|i: int, j: int| 0 <= i < j < order.len() implies {
        let (a, b) = (#[trigger] order[i] as int, #[trigger] order[j] as int);
        scores[a].bits > scores[b].bits || (scores[a].bits == scores[b].bits && a < b)
    } by {
        let (a, b) = (order[i] as int, order[j] as int);
        assert(keys[a] == scores[a].bits && keys[b] == scores[b].bits);
    }
    order
}

/// An explanation reads, from left to right: the percent, of which no more than
/// 100 are shown, how far away in time, from which file, whether by the same
/// camera, and how many percent the colors match, if they were compared.
pub proof fn law_explanation_reads_in_order(c: MetaSimCandidate)
    ensures
        ({
            let percent = if c.score.percent < 100 {
                decimal(c.score.percent as nat)
            } else {
                seq!['1', '0', '0']
            };
            let name = if let Some(name) = file_name_of(path_of(&c.anchor)) {
                name
            } else {
                Seq::empty()
            };
            let camera = if c.same_camera {
                ", same camera, "@
            } else {
                ", different/unknown camera, "@
            };
            let color = if let Some(color) = c.color_score {
                decimal(color.percent as nat) + "% color match"@
            } else {
                "color not compared"@
            };
            c.explained() == percent + "% - "@ + humanized(c.delta_secs as int) + " from "@ + name
                + camera + color
        }),
{
    law_decimal_grows_by_digits(10, 0);
    law_decimal_grows_by_digits(1, 0);
    assert(decimal(100) =~= seq!['1', '0', '0']);
    reveal_strlit(", ");
    reveal_strlit("same camera");
    reveal_strlit("different/unknown camera");
    reveal_strlit(", same camera, ");
    reveal_strlit(", different/unknown camera, ");
    assert(", same camera, "@ =~= ", "@ + "same camera"@ + ", "@);
    assert(", different/unknown camera, "@ =~= ", "@ + "different/unknown camera"@ + ", "@);
    let name = shown_name(file_name_of(path_of(&c.anchor)));
    let color = if let Some(color) = c.color_score {
        decimal(color.percent as nat) + "% color match"@
    } else {
        "color not compared"@
    };
    let start = decimal(shown_percent(c.score.percent)) + "% - "@ + humanized(c.delta_secs as int)
        + " from "@ + name;
    let camera = if c.same_camera { "same camera"@ } else { "different/unknown camera"@ };
    assert(c.explained() =~= start + (", "@ + camera + ", "@) + color);
}

} // verus!
