use aco_tsp::ant::{create_ants, find_best, nearest_neighbour_tour, Ant};
use aco_tsp::instance_data::{value_of_tour, DataError, InstanceData};

fn square() -> InstanceData {
    InstanceData::from_coordinates(&vec![(0, 0), (0, 10), (10, 10), (10, 0)]).unwrap()
}

#[test]
fn square_distances() {
    let data = square();
    assert_eq!(data.size, 4);
    let d = &data.distances;
    assert_eq!(d[(0, 1)], 10);
    assert_eq!(d[(1, 2)], 10);
    assert_eq!(d[(2, 3)], 10);
    assert_eq!(d[(3, 0)], 10);
    assert_eq!(d[(0, 2)], 14);
    assert_eq!(d[(1, 3)], 14);
    for i in 0..4 {
        assert_eq!(d[(i, i)], u32::MAX);
        for j in 0..4 {
            assert_eq!(d[(i, j)], d[(j, i)]);
        }
    }
}

#[test]
fn too_few_cities() {
    assert_eq!(InstanceData::from_coordinates(&vec![]).err(), Some(DataError::TooFewCities));
    assert_eq!(InstanceData::from_coordinates(&vec![(1, 1)]).err(), Some(DataError::TooFewCities));
}

#[test]
fn edge_too_long() {
    let far = vec![(0, 0), (40000, 40000)];
    assert_eq!(InstanceData::from_coordinates(&far).err(), Some(DataError::EdgeTooLong));
    let wide = vec![(i32::MIN, 0), (i32::MAX, 0)];
    assert_eq!(InstanceData::from_coordinates(&wide).err(), Some(DataError::EdgeTooLong));
}

#[test]
fn nearest_neighbour_on_square() {
    let data = square();
    for s in 0..4 {
        assert_eq!(nearest_neighbour_tour(&data, s), 40);
    }
}

#[test]
fn nearest_neighbour_takes_first_nearest() {
    // from 0 the nearest are 1 and 3 (both 10); 1 comes first, then 2, then 3
    let data = InstanceData::from_coordinates(&vec![(0, 0), (10, 0), (20, 0), (-10, 0)]).unwrap();
    assert_eq!(nearest_neighbour_tour(&data, 0), 10 + 10 + 30 + 10);
}

#[test]
fn two_city_instance() {
    let data = InstanceData::from_coordinates(&vec![(0, 0), (3, 4)]).unwrap();
    assert_eq!(nearest_neighbour_tour(&data, 0), 2 * data.distances[(0, 1)]);
    let mut ant = Ant::new_on_city(2, 0);
    ant.step_to(&data, 1);
    ant.close_tour(&data);
    assert_eq!(ant.tour_cities(), vec![0, 1]);
    assert_eq!(ant.length, 10);
}

#[test]
fn ant_walks_closed_tour() {
    let data = square();
    let mut ant = Ant::new_on_city(4, 0);
    assert_eq!(ant.unvisited(&data), vec![1, 2, 3]);
    ant.step_to(&data, 2);
    assert_eq!(ant.length, 14);
    assert_eq!(ant.curr_city, 2);
    assert_eq!(ant.unvisited(&data), vec![1, 3]);
    ant.step_to(&data, 1);
    ant.step_to(&data, 3);
    assert_eq!(ant.unvisited(&data), Vec::<usize>::new());
    assert_eq!(ant.get_first(), 0);
    assert_eq!(ant.get_last(), 3);
    assert_eq!(ant.get_last_arc(), (1, 3));
    assert_eq!(ant.length, 14 + 10 + 14);
    ant.close_tour(&data);
    assert_eq!(ant.length, 14 + 10 + 14 + 10);
    let mut recomputed = 0;
    let tour = ant.tour_cities();
    assert_eq!(tour, vec![0, 2, 1, 3]);
    for k in 0..tour.len() {
        recomputed += data.distances[(tour[k], tour[(k + 1) % tour.len()])];
    }
    assert_eq!(ant.length, recomputed);
}

#[test]
fn ant_insert_keeps_cities_unique() {
    let mut ant = Ant::new_on_city(5, 3);
    ant.insert(4, 7);
    ant.insert(3, 2);
    assert_eq!(ant.tour_cities(), vec![3, 4]);
    assert_eq!(ant.length, 9);
    assert_eq!(ant.curr_city, 3);
    let copy = ant.clone();
    assert_eq!(copy.tour_cities(), vec![3, 4]);
    assert_eq!(copy.length, 9);
    assert_eq!(Ant::new(4).tour_cities(), Vec::<usize>::new());
}

#[test]
fn ants_start_on_cities() {
    let ants = create_ants(50, 7);
    assert_eq!(ants.len(), 50);
    for a in &ants {
        let t = a.tour_cities();
        assert_eq!(t.len(), 1);
        assert!(t[0] < 7);
        assert_eq!(a.curr_city, t[0]);
        assert_eq!(a.length, 0);
    }
    assert!(create_ants(0, 3).is_empty());
}

#[test]
fn value_of_tours() {
    let data = square();
    assert_eq!(value_of_tour(&data.distances, &[0, 1, 2, 3]), 40);
    assert_eq!(value_of_tour(&data.distances, &[0, 2, 1, 3]), 48);
    assert_eq!(value_of_tour(&data.distances, &[3, 1]), 28);
}

#[test]
fn best_is_first_shortest() {
    let mut ants = Vec::new();
    for (start, length) in [(0, 9u32), (1, 4), (2, 7), (3, 4)] {
        let mut a = Ant::new_on_city(4, start);
        a.insert(4, length);
        ants.push(a);
    }
    let best = find_best(&ants);
    assert_eq!(best.length, 4);
    assert_eq!(best.get_first(), 1);
}
