use dial_theory::clustering::{assign_members, Cluster};

fn key(x: f64) -> Option<u64> {
    if x.is_nan() {
        None
    } else {
        let b = (x + 0.0).to_bits();
        Some(if b >> 63 == 1 { !b } else { b | (1u64 << 63) })
    }
}

fn dist(a: (f64, f64), b: (f64, f64)) -> f64 {
    ((a.0 - b.0) * (a.0 - b.0) + (a.1 - b.1) * (a.1 - b.1)).sqrt()
}

fn points() -> Vec<(f64, f64)> {
    vec![(0.0, 0.0), (0.1, 0.1), (5.0, 5.0), (5.1, 4.9), (10.0, 10.0), (10.1, 10.1)]
}

fn rows(ps: &[(f64, f64)], cs: &[Cluster<(f64, f64)>]) -> Vec<Vec<Option<u64>>> {
    ps.iter().map(|p| cs.iter().map(|c| key(dist(*p, c.centroid))).collect()).collect()
}

#[test]
fn cluster_starts_empty() {
    let c = Cluster::new((1.0, 2.0));
    assert_eq!(c.size(), 0);
    assert_eq!(c.centroid, (1.0, 2.0));
}

#[test]
fn assignment_groups_by_nearest_centroid() {
    let ps = points();
    let mut clusters = vec![Cluster::new(ps[0]), Cluster::new(ps[2]), Cluster::new(ps[4])];
    clusters[0].members.push(5);
    let d = rows(&ps, &clusters);
    assign_members(&mut clusters, &d);
    assert_eq!(clusters[0].members, vec![0, 1]);
    assert_eq!(clusters[1].members, vec![2, 3]);
    assert_eq!(clusters[2].members, vec![4, 5]);
    assert_eq!(clusters[1].centroid, (5.0, 5.0));
}

#[test]
fn assignment_ties_go_to_the_first_cluster() {
    let ps = vec![(0.0, 0.0), (2.0, 0.0)];
    let mut clusters = vec![Cluster::new((1.0, 1.0)), Cluster::new((1.0, -1.0))];
    let d = rows(&ps, &clusters);
    assign_members(&mut clusters, &d);
    assert_eq!(clusters[0].members, vec![0, 1]);
    assert_eq!(clusters[1].size(), 0);
}

#[test]
fn every_point_in_exactly_one_cluster() {
    let ps = points();
    let mut clusters = vec![Cluster::new(ps[0]), Cluster::new(ps[3])];
    let d = rows(&ps, &clusters);
    assign_members(&mut clusters, &d);
    for i in 0..ps.len() {
        let n = clusters.iter().filter(|c| c.members.contains(&i)).count();
        assert_eq!(n, 1);
    }
    assert!(clusters.iter().all(|c| !c.members.is_empty()));
}

#[test]
fn representative_is_first_most_central_member() {
    let ps = points();
    let mut c = Cluster::new((5.05, 4.95));
    c.members = vec![3, 2];
    let keys: Vec<Option<u64>> = c.members.iter().map(|&i| key(dist(ps[i], c.centroid))).collect();
    assert_eq!(c.representative_by_key(&keys), Some(3));
    let empty: Cluster<(f64, f64)> = Cluster::new((0.0, 0.0));
    assert_eq!(empty.representative_by_key(&vec![]), None);
}
