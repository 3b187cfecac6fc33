use rgrep::numfmt::decimal_string;
use rgrep::rooms::{Hall, Room};
use rgrep::sieve::sieve;
use rgrep::vec_basics::{read_vec, vec_min, vec_sum};

#[test]
fn sieve_small() {
    assert_eq!(sieve(7), vec![2, 3, 5]);
    assert_eq!(sieve(0), Vec::<u32>::new());
    assert_eq!(sieve(2), Vec::<u32>::new());
    assert_eq!(sieve(3), vec![2]);
    assert_eq!(sieve(30), vec![2, 3, 5, 7, 11, 13, 17, 19, 23, 29]);
}

#[test]
fn vec_basics_sample() {
    let v = read_vec();
    assert_eq!(v, vec![3, 4, 6, -19]);
    assert_eq!(vec_min(&v), Some(&-19));
    assert_eq!(vec_sum(&v), Some(-6));
    let empty: Vec<i32> = Vec::new();
    assert_eq!(vec_min(&empty), None);
    assert_eq!(vec_sum(&empty), None);
}

#[test]
fn halls_connect_rooms() {
    let mut kitchen = Room::new("kitchen", false);
    let cellar = Room::new("cellar", true);
    let attic = Room::new("attic", false);
    assert_eq!(cellar.name, "cellar");
    assert!(cellar.wumpus);

    // Rooms 0 (kitchen), 1 (cellar), 2 (attic); halls 0 and 1 lead out of
    // the kitchen.
    let halls = vec![Hall::new(0, 1), Hall::new(2, 0)];
    assert_eq!(halls[0].other(0), 1);
    assert_eq!(halls[0].other(1), 0);
    kitchen.add_hall(0);
    kitchen.add_hall(1);
    let rooms = vec![kitchen, cellar, attic];
    let s = rooms[0].neighbors_string(0, &halls, &rooms);
    assert_eq!(s, "cellar attic".to_string());
}

#[test]
fn empty_room_has_no_neighbors() {
    let lonely = Room::new("island", false);
    let halls: Vec<Hall> = Vec::new();
    let rooms = vec![lonely];
    assert_eq!(rooms[0].neighbors_string(0, &halls, &rooms), String::new());
}

#[test]
fn decimal_renderings() {
    assert_eq!(decimal_string(0), "0".to_string());
    assert_eq!(decimal_string(7), "7".to_string());
    assert_eq!(decimal_string(10), "10".to_string());
    assert_eq!(decimal_string(65537), "65537".to_string());
}
