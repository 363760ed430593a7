use movie_search_backend::fusion::{fused_ranking, fusion_groups};
use movie_search_backend::sanitize_query;

/// Reciprocal rank fusion with constant `k`: the library groups the ranks of
/// each id and ranks by score; the reciprocal scores are summed here, in the
/// order the ranks are listed.
fn rrf_fuse_with_k(lists: &[Vec<(usize, f32)>], k: f32) -> Vec<(usize, f32)> {
    let id_lists: Vec<Vec<usize>> = lists.iter().map(|l| l.iter().map(|(id, _)| *id).collect()).collect();
    let (ids, ranks) = fusion_groups(&id_lists);
    let keys: Vec<u64> = ranks
        .iter()
        .map(|rs| {
            let mut score = 0.0f32;
            for r in rs {
                score += 1.0 / (k + *r as f32);
            }
            score.to_bits() as u64
        })
        .collect();
    fused_ranking(&ids, &keys)
        .into_iter()
        .map(|(id, key)| (id, f32::from_bits(key as u32)))
        .collect()
}

fn rrf_fuse(lists: &[Vec<(usize, f32)>]) -> Vec<(usize, f32)> {
    rrf_fuse_with_k(lists, 60.0)
}

fn ids(list: &[(usize, f32)]) -> Vec<usize> {
    list.iter().map(|(id, _)| *id).collect()
}

#[test]
fn rrf_fuses_single_list_in_order() {
    let lists = vec![vec![(3, 1.0), (1, 0.5), (2, 0.1)]];
    let fused = rrf_fuse(&lists);
    assert_eq!(ids(&fused), vec![3, 1, 2]);
}

#[test]
fn rrf_prefers_items_ranked_high_in_both_lists() {
    let lists = vec![
        vec![(42, 9.0), (7, 8.0)],
        vec![(42, 0.2), (7, 0.1), (3, 0.05)],
    ];
    let fused = rrf_fuse(&lists);
    assert_eq!(ids(&fused), vec![42, 7, 3]);
}

#[test]
fn rrf_deduplicates_ids_across_lists() {
    let lists = vec![vec![(5, 1.0)], vec![(5, 1.0)], vec![(9, 1.0)]];
    let fused = rrf_fuse(&lists);
    assert_eq!(ids(&fused), vec![5, 9]);
}

#[test]
fn rrf_empty_lists_yield_empty_result() {
    assert!(rrf_fuse(&[]).is_empty());
    assert!(rrf_fuse(&[vec![], vec![]]).is_empty());
}

#[test]
fn rrf_k_changes_scores_but_not_ranking() {
    let lists = vec![vec![(1, 1.0), (2, 0.5)]];
    let a = rrf_fuse_with_k(&lists, 1.0);
    let b = rrf_fuse_with_k(&lists, 60.0);
    assert_eq!(ids(&a), ids(&b));
    assert!(a[0].1 - a[1].1 > b[0].1 - b[1].1);
}

#[test]
fn sanitize_removes_tantivy_operators() {
    assert_eq!(sanitize_query("inception"), "inception");
    assert_eq!(sanitize_query("sci-fi space"), "sci-fi space");
    assert_eq!(sanitize_query("star+: wars :episode"), "star wars episode");
    assert_eq!(sanitize_query("\"matrix\" (1999)"), "matrix 1999");
    assert_eq!(sanitize_query("a:b c"), "ab c");
}

#[test]
fn sanitize_keeps_alphanumerics_and_falls_back() {
    assert_eq!(sanitize_query("  "), "");
    assert_eq!(sanitize_query("!!!"), "!!!");
    assert_eq!(sanitize_query("münchen"), "münchen");
}
