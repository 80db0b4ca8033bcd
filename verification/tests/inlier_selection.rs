use fracgm::array_helper::to_usize_buf;
use fracgm::mcis::{
    inlier_indices, is_clique, max_clique_inlier_selection, pmc_thread_count, thread_count_for,
};

#[test]
fn inliers_are_the_reported_vertices_sorted() {
    assert_eq!(inlier_indices(10, &vec![7, 2, 9, 0, 4]), vec![0, 2, 4, 7, 9]);
}

#[test]
fn inliers_hold_each_vertex_once() {
    assert_eq!(inlier_indices(5, &vec![3, 1, 3, 1, 1]), vec![1, 3]);
}

#[test]
fn vertices_that_are_no_correspondence_are_left_out() {
    assert_eq!(inlier_indices(4, &vec![-1, 4, 3, 100, i32::MIN, i32::MAX, 0]), vec![0, 3]);
}

#[test]
fn nothing_reported_gives_no_inliers() {
    assert_eq!(inlier_indices(10, &Vec::new()), Vec::<usize>::new());
    assert_eq!(inlier_indices(0, &vec![0, 1, 2]), Vec::<usize>::new());
}

#[test]
fn inliers_are_a_strictly_increasing_subset_of_the_indices() {
    let clique: Vec<i32> = (0..200).map(|k| (k * 37) % 101 - 20).collect();
    let inliers = inlier_indices(60, &clique);
    assert!(inliers.windows(2).all(|w| w[0] < w[1]));
    assert!(inliers.iter().all(|v| *v < 60));
    for v in 0..60usize {
        assert_eq!(inliers.contains(&v), clique.contains(&(v as i32)));
    }
}

#[test]
fn thread_count_is_one_per_core() {
    assert_eq!(thread_count_for(0), 0);
    assert_eq!(thread_count_for(1), 1);
    assert_eq!(thread_count_for(64), 64);
    assert_eq!(thread_count_for(i32::MAX as usize), i32::MAX);
}

#[test]
fn thread_count_stops_at_the_largest_counter() {
    assert_eq!(thread_count_for(i32::MAX as usize + 1), i32::MAX);
    assert_eq!(thread_count_for(usize::MAX), i32::MAX);
}

#[test]
fn this_machine_has_a_thread_count() {
    assert!(pmc_thread_count() >= 1);
}

#[test]
fn selection_hands_the_thread_count_to_the_engine_and_sorts_its_report() {
    let threads = pmc_thread_count();
    let inliers = max_clique_inlier_selection(8, |given: i32| {
        assert_eq!(given, threads);
        vec![5, 3, 7, 1]
    });
    assert_eq!(inliers, vec![1, 3, 5, 7]);
}

#[test]
fn selection_on_an_empty_graph_is_empty() {
    assert_eq!(max_clique_inlier_selection(0, |_threads: i32| Vec::new()), Vec::<usize>::new());
}

#[test]
fn compatible_vertices_form_a_clique() {
    // Vertices are compatible when they have the same parity.
    let same_parity = |a: usize, b: usize| a % 2 == b % 2;
    assert!(is_clique(&vec![0, 2, 4, 8], same_parity));
    assert!(!is_clique(&vec![0, 2, 5, 8], same_parity));
    assert!(!is_clique(&vec![1, 2], same_parity));
}

#[test]
fn fewer_than_two_vertices_are_always_a_clique() {
    let never = |_a: usize, _b: usize| false;
    assert!(is_clique(&Vec::new(), never));
    assert!(is_clique(&vec![3], never));
    assert!(!is_clique(&vec![3, 4], never));
}

#[test]
fn selected_inliers_of_a_clique_are_a_clique() {
    // The compatibility graph of distances: points on a line, compatible when
    // the two clouds agree on their distance within twice the noise bound.
    let src = [0.0_f64, 1.0, 2.0, 3.0, 4.0];
    let dst = [0.0_f64, 1.0, 2.0, 30.0, 4.0];
    let noise_bound = 0.1;
    let compatible = |a: usize, b: usize| {
        ((src[a] - src[b]).abs() - (dst[a] - dst[b]).abs()).abs() <= 2.0 * noise_bound
    };
    let inliers = inlier_indices(5, &vec![4, 0, 2, 1]);
    assert_eq!(inliers, vec![0, 1, 2, 4]);
    assert!(is_clique(&inliers, compatible));
    assert!(!is_clique(&vec![0, 1, 2, 3, 4], compatible));
}

#[test]
fn index_buffer_copies_the_list() {
    let buf = to_usize_buf(&[4, 1, 9]);
    assert_eq!(buf.data, vec![4, 1, 9]);
    assert_eq!(buf.len, 3);
    let empty = to_usize_buf(&[]);
    assert!(empty.data.is_empty());
    assert_eq!(empty.len, 0);
}
