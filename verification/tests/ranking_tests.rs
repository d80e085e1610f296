use std::path::PathBuf;

use metadata_similarity::candidate::{rank_scored, MetaSimCandidate, PaletteCache, Score};
use metadata_similarity::capture::Capture;
use metadata_similarity::color::count_colors;
use metadata_similarity::proximity::{
    match_candidates, nearest_anchor, shortlist, Photo, Proximity, STAGE1_TOP_N,
};
use metadata_similarity::ranking::rank_descending;

fn photo(name: &str, secs: Option<i64>, camera: Option<&str>) -> Photo {
    Photo {
        path: PathBuf::from(name),
        capture: Capture { secs, camera: camera.map(|c| c.to_string()) },
    }
}

#[test]
fn ranking_is_descending_and_keeps_ties_in_order() {
    assert_eq!(rank_descending(&[]), Vec::<usize>::new());
    assert_eq!(rank_descending(&[5]), vec![0]);
    assert_eq!(rank_descending(&[1, 3, 3, 2, 3]), vec![1, 2, 4, 3, 0]);
    assert_eq!(rank_descending(&[7, 7, 7]), vec![0, 1, 2]);
}

#[test]
fn ranking_agrees_with_a_stable_sort() {
    let mut seed: u32 = 12345;
    let mut keys: Vec<u32> = Vec::new();
    for _ in 0..2000 {
        seed = seed.wrapping_mul(1664525).wrapping_add(1013904223);
        keys.push(seed >> 24);
    }
    let mut expected: Vec<usize> = (0..keys.len()).collect();
    expected.sort_by(|&a, &b| keys[b].cmp(&keys[a]));
    assert_eq!(rank_descending(&keys), expected);
}

#[test]
fn scores_rank_by_their_bits() {
    let scores: [f32; 6] = [0.0, 0.15, 1.0, 0.1500001, 1.15, 0.002];
    let keys: Vec<u32> = scores.iter().map(|s| s.to_bits()).collect();
    assert_eq!(rank_descending(&keys), vec![4, 2, 3, 1, 5, 0]);
}

#[test]
fn the_nearest_anchor_is_the_first_of_the_nearest() {
    let anchors = [
        photo("a", Some(100), None),
        photo("b", None, None),
        photo("c", Some(140), None),
        photo("d", Some(120), None),
        photo("e", Some(100), None),
    ];
    assert_eq!(nearest_anchor(&anchors, 101), Some((0, 1)));
    assert_eq!(nearest_anchor(&anchors, 110), Some((0, 10)));
    assert_eq!(nearest_anchor(&anchors, 130), Some((2, 10)));
    assert_eq!(nearest_anchor(&anchors, -900), Some((0, 1000)));
    assert_eq!(nearest_anchor(&anchors[1..2], 0), None);
    assert_eq!(nearest_anchor(&[], 0), None);
}

#[test]
fn candidates_outside_the_window_are_dropped() {
    let anchors = [photo("a", Some(1000), Some("X")), photo("b", Some(2000), None)];
    let candidates = [
        photo("in", Some(1010), Some("X")),
        photo("edge", Some(1300), Some("Y")),
        photo("out", Some(1301), Some("X")),
        photo("untimed", None, Some("X")),
        photo("near b", Some(1999), Some("X")),
    ];
    let matches = match_candidates(&anchors, &candidates, 300);
    assert_eq!(
        matches,
        vec![
            Proximity { candidate: 0, anchor: 0, delta_secs: 10, same_camera: true },
            Proximity { candidate: 1, anchor: 0, delta_secs: 300, same_camera: false },
            Proximity { candidate: 4, anchor: 1, delta_secs: 1, same_camera: false },
        ]
    );
    assert_eq!(match_candidates(&anchors, &candidates, 301).len(), 4);
    assert!(match_candidates(&anchors, &candidates, -1).is_empty());
    assert!(match_candidates(&[], &candidates, 300).is_empty());
}

#[test]
fn unknown_cameras_are_not_the_same() {
    let anchors = [photo("a", Some(0), None)];
    let candidates = [photo("c", Some(0), None)];
    assert!(!match_candidates(&anchors, &candidates, 0)[0].same_camera);
}

#[test]
fn the_short_list_holds_the_best_two_hundred() {
    let matches: Vec<Proximity> = (0..300)
        .map(|i| Proximity { candidate: i, anchor: 0, delta_secs: i as i64, same_camera: false })
        .collect();
    let keys: Vec<u32> = (0..300).map(|i| i / 10).collect();
    let listed = shortlist(&matches, &keys);
    assert_eq!(listed.len(), STAGE1_TOP_N);
    assert_eq!(listed[0].candidate, 290);
    assert_eq!(listed[9].candidate, 299);
    assert_eq!(listed[10].candidate, 280);
    assert_eq!(listed[199].candidate, 109);
    assert_eq!(shortlist(&matches[..2], &keys[..2]).len(), 2);
}

fn score(bits: u32) -> Score {
    Score { bits, percent: bits }
}

#[test]
fn results_come_by_score() {
    let anchors = [photo("a.jpg", Some(0), None), photo("b.jpg", Some(50), None)];
    let candidates =
        [photo("x.jpg", Some(1), None), photo("y.jpg", Some(49), None), photo("z.jpg", Some(52), None)];
    let matches = match_candidates(&anchors, &candidates, 100);
    let results = rank_scored(
        &anchors,
        &candidates,
        &matches,
        &[score(20), score(70), score(20)],
        &[None, Some(score(9)), None],
    );
    let paths: Vec<&str> = results.iter().map(|r| r.path.to_str().unwrap()).collect();
    assert_eq!(paths, vec!["y.jpg", "x.jpg", "z.jpg"]);
    assert_eq!(results[0].anchor, PathBuf::from("b.jpg"));
    assert_eq!(results[0].delta_secs, 1);
    assert_eq!(results[0].color_score, Some(score(9)));
    assert_eq!(results[1].anchor, PathBuf::from("a.jpg"));
    assert_eq!(results[2].delta_secs, 2);
    assert_eq!(results[2].score, score(20));
}

fn candidate(anchor: &str, same_camera: bool, color_score: Option<Score>) -> MetaSimCandidate {
    MetaSimCandidate {
        path: PathBuf::from("IMG_0999.jpg"),
        score: Score { bits: 0.62f32.to_bits(), percent: 62 },
        anchor: PathBuf::from(anchor),
        delta_secs: 134,
        same_camera,
        color_score,
    }
}

#[test]
fn a_score_is_explained() {
    let color = Some(Score { bits: 0.71f32.to_bits(), percent: 71 });
    assert_eq!(
        candidate("photos/IMG_0234.jpg", true, color).explain(),
        "62% - 2m14s from IMG_0234.jpg, same camera, 71% color match"
    );
    assert_eq!(
        candidate("..", false, None).clone().explain(),
        "62% - 2m14s from , different/unknown camera, color not compared"
    );
}

#[test]
fn scores_of_a_hundred_percent_and_more_read_alike() {
    let with_percent = |percent: u32| MetaSimCandidate {
        score: Score { bits: percent, percent },
        ..candidate("IMG_0234.jpg", true, None)
    };
    let text = "100% - 2m14s from IMG_0234.jpg, same camera, color not compared";
    assert_eq!(with_percent(100).explain(), text);
    assert_eq!(with_percent(101).explain(), text);
    assert_eq!(with_percent(112).explain(), text);
    assert_eq!(with_percent(u32::MAX).explain(), text);
    assert_eq!(
        with_percent(99).explain(),
        "99% - 2m14s from IMG_0234.jpg, same camera, color not compared"
    );
    let beyond = Some(Score { bits: 0, percent: 112 });
    assert_eq!(
        candidate("IMG_0234.jpg", true, beyond).explain(),
        "62% - 2m14s from IMG_0234.jpg, same camera, 112% color match"
    );
}

#[test]
fn directories_are_not_explained() {
    let a = candidate("photos/2024/IMG_0234.jpg", false, None);
    let mut b = candidate("elsewhere/IMG_0234.jpg", false, None);
    b.path = PathBuf::from("other.jpg");
    assert_eq!(a.explain(), b.explain());
}

/// The results within a window, each scored by its distance and candidate.
fn results_within(window_secs: i64) -> Vec<MetaSimCandidate> {
    let anchors = [photo("a.jpg", Some(1000), Some("X")), photo("b.jpg", Some(5000), Some("Y"))];
    let candidates: Vec<Photo> = (0..60)
        .map(|i| photo(&format!("{}.jpg", i), Some((i * 977) % 6000), Some("X")))
        .collect();
    let matches = match_candidates(&anchors, &candidates, window_secs);
    let keys: Vec<u32> = matches.iter().map(|m| 6000 - m.delta_secs as u32 / 100).collect();
    let listed = shortlist(&matches, &keys);
    let scores: Vec<Score> = listed.iter().map(|m| score((m.candidate % 7) as u32)).collect();
    let color_scores: Vec<Option<Score>> = listed
        .iter()
        .map(|m| if m.candidate % 2 == 0 { Some(score(m.candidate as u32)) } else { None })
        .collect();
    rank_scored(&anchors, &candidates, &listed, &scores, &color_scores)
}

#[test]
fn a_narrower_window_leaves_the_results_within_it() {
    let shown = |results: &[MetaSimCandidate]| -> Vec<String> {
        results.iter().map(|result| format!("{:?}", result)).collect()
    };
    let wide = results_within(2000);
    assert_eq!(wide.len(), 60);
    for window_secs in [0, 1, 300, 777, 1500] {
        let left: Vec<MetaSimCandidate> =
            wide.iter().filter(|result| result.delta_secs <= window_secs).cloned().collect();
        assert!(left.len() < wide.len());
        assert_eq!(shown(&results_within(window_secs)), shown(&left));
    }
}

#[test]
fn a_palette_is_kept_once_it_is_there() {
    let mut cache = PaletteCache::new(2);
    assert!(cache.is_missing(0));
    assert!(cache.is_missing(1));
    cache.record(1, None);
    assert!(cache.is_missing(1));
    cache.record(1, Some(count_colors(&[0, 0, 0])));
    assert!(!cache.is_missing(1));
    cache.record(1, None);
    assert_eq!(cache.get(1).unwrap().total, 1);
    assert!(cache.get(0).is_none());
}
