use rustaceans::models::{NewRustacean, Rustacean};
use rustaceans::repositories::{RustaceanRepository, StoreError};

fn new_rustacean(name: &str, email: &str) -> NewRustacean {
    NewRustacean { name: name.to_string(), email: email.to_string() }
}

fn rustacean(id: i32, name: &str, email: &str, created_at: &str) -> Rustacean {
    Rustacean {
        id,
        name: name.to_string(),
        email: email.to_string(),
        created_at: created_at.to_string(),
    }
}

fn filled(count: i32) -> RustaceanRepository {
    let mut repository = RustaceanRepository::new();
    for i in 1..=count {
        let created = repository
            .create(new_rustacean(&format!("name{}", i), &format!("mail{}", i)), format!("time{}", i))
            .expect("an id is left");
        assert_eq!(created.id, i);
    }
    repository
}

#[test]
fn empty_repository_lists_nothing() {
    let repository = RustaceanRepository::new();
    assert_eq!(repository.find_multiple(100), Ok(vec![]));
    assert_eq!(repository.find_multiple(0), Ok(vec![]));
    assert_eq!(repository.find(1), Err(StoreError::NotFound));
}

#[test]
fn create_assigns_the_next_id_and_the_creation_time() {
    let mut repository = RustaceanRepository::new();
    let ada = repository.create(new_rustacean("Ada", "ada@example.com"), "2024-01-01 10:00:00".to_string());
    assert_eq!(ada, Ok(rustacean(1, "Ada", "ada@example.com", "2024-01-01 10:00:00")));
    let grace = repository.create(new_rustacean("Grace", "grace@example.com"), "2024-01-02 11:30:00".to_string());
    assert_eq!(grace, Ok(rustacean(2, "Grace", "grace@example.com", "2024-01-02 11:30:00")));
}

#[test]
fn created_record_is_found_with_the_same_values() {
    let mut repository = filled(3);
    assert_eq!(repository.find(4), Err(StoreError::NotFound));
    let created = repository.create(new_rustacean("Ada", "ada@example.com"), "now".to_string()).unwrap();
    assert_eq!(created.id, 4);
    assert_eq!(created.created_at, "now");
    assert_eq!(repository.find(created.id), Ok(created));
    assert_eq!(repository.find(2), Ok(rustacean(2, "name2", "mail2", "time2")));
}

#[test]
fn find_multiple_is_limited_and_descending() {
    let repository = filled(5);
    let listed = repository.find_multiple(3).unwrap();
    assert_eq!(
        listed,
        vec![
            rustacean(5, "name5", "mail5", "time5"),
            rustacean(4, "name4", "mail4", "time4"),
            rustacean(3, "name3", "mail3", "time3"),
        ]
    );
    let all = repository.find_multiple(100).unwrap();
    assert_eq!(all.iter().map(|r| r.id).collect::<Vec<i32>>(), vec![5, 4, 3, 2, 1]);
    let exactly = repository.find_multiple(5).unwrap();
    assert_eq!(exactly, all);
    assert_eq!(repository.find_multiple(1).unwrap(), vec![rustacean(5, "name5", "mail5", "time5")]);
    assert_eq!(repository.find_multiple(0), Ok(vec![]));
    assert_eq!(repository.find_multiple(usize::MAX).unwrap().len(), 5);
}

#[test]
fn find_multiple_returns_at_most_limit_records_for_every_limit() {
    let repository = filled(7);
    for limit in 0..10usize {
        let listed = repository.find_multiple(limit).unwrap();
        assert_eq!(listed.len(), limit.min(7));
        for pair in listed.windows(2) {
            assert!(pair[0].id > pair[1].id);
        }
    }
}

#[test]
fn save_replaces_name_and_email_only() {
    let mut repository = filled(3);
    // The id and the creation time of the input are not looked at.
    let saved = repository.save(2, rustacean(77, "Ada L.", "ada@example.com", "another time"));
    assert_eq!(saved, Ok(rustacean(2, "Ada L.", "ada@example.com", "time2")));
    assert_eq!(repository.find(2), Ok(rustacean(2, "Ada L.", "ada@example.com", "time2")));
    assert_eq!(repository.find(77), Err(StoreError::NotFound));
    assert_eq!(repository.find(1), Ok(rustacean(1, "name1", "mail1", "time1")));
    assert_eq!(repository.find(3), Ok(rustacean(3, "name3", "mail3", "time3")));
    assert_eq!(repository.find_multiple(10).unwrap().len(), 3);
}

#[test]
fn absent_id_is_not_found() {
    let mut repository = filled(3);
    assert_eq!(repository.find(999999), Err(StoreError::NotFound));
    assert_eq!(
        repository.save(999999, rustacean(999999, "x", "y", "z")),
        Err(StoreError::NotFound)
    );
    assert_eq!(repository.delete(999999), Err(StoreError::NotFound));
    assert_eq!(repository.find(0), Err(StoreError::NotFound));
    assert_eq!(repository.find(-1), Err(StoreError::NotFound));
    assert_eq!(repository.delete(i32::MIN), Err(StoreError::NotFound));
    // Nothing changed.
    assert_eq!(
        repository.find_multiple(10).unwrap().iter().map(|r| r.id).collect::<Vec<i32>>(),
        vec![3, 2, 1]
    );
}

#[test]
fn delete_is_effective_and_fails_the_second_time() {
    let mut repository = filled(4);
    assert_eq!(repository.delete(2), Ok(()));
    assert_eq!(repository.find(2), Err(StoreError::NotFound));
    assert_eq!(repository.delete(2), Err(StoreError::NotFound));
    assert_eq!(
        repository.find_multiple(10).unwrap().iter().map(|r| r.id).collect::<Vec<i32>>(),
        vec![4, 3, 1]
    );
    assert_eq!(repository.find(1), Ok(rustacean(1, "name1", "mail1", "time1")));
    assert_eq!(repository.find(3), Ok(rustacean(3, "name3", "mail3", "time3")));
    assert_eq!(repository.find(4), Ok(rustacean(4, "name4", "mail4", "time4")));
}

#[test]
fn ids_are_not_used_again_after_a_delete() {
    let mut repository = filled(3);
    assert_eq!(repository.delete(3), Ok(()));
    let next = repository.create(new_rustacean("n", "e"), "t".to_string()).unwrap();
    assert_eq!(next.id, 4);
    assert_eq!(repository.delete(4), Ok(()));
    assert_eq!(repository.delete(1), Ok(()));
    assert_eq!(repository.delete(2), Ok(()));
    assert_eq!(repository.find_multiple(10), Ok(vec![]));
    let after_all = repository.create(new_rustacean("n", "e"), "t".to_string()).unwrap();
    assert_eq!(after_all.id, 5);
}

#[test]
fn every_record_is_found_in_a_large_table() {
    let mut repository = filled(100);
    for id in (2..=100).step_by(2) {
        assert_eq!(repository.delete(id), Ok(()));
    }
    for id in 1..=100 {
        let found = repository.find(id);
        if id % 2 == 1 {
            assert_eq!(found.map(|r| r.id), Ok(id));
        } else {
            assert_eq!(found, Err(StoreError::NotFound));
        }
    }
}

#[test]
fn repository_can_start_after_an_id() {
    let mut repository = RustaceanRepository::starting_after(41).expect("41 is no negative id");
    assert_eq!(repository.find_multiple(10), Ok(vec![]));
    let created = repository.create(new_rustacean("n", "e"), "t".to_string()).unwrap();
    assert_eq!(created.id, 42);
    assert!(RustaceanRepository::starting_after(-1).is_none());
    assert!(RustaceanRepository::starting_after(0).is_some());
}

#[test]
fn create_fails_when_no_id_is_left() {
    let mut repository = RustaceanRepository::starting_after(i32::MAX - 1).unwrap();
    let last = repository.create(new_rustacean("last", "e"), "t".to_string()).unwrap();
    assert_eq!(last.id, i32::MAX);
    assert_eq!(
        repository.create(new_rustacean("one too many", "e"), "t".to_string()),
        Err(StoreError::Other)
    );
    // Nothing changed.
    assert_eq!(repository.find_multiple(10), Ok(vec![last]));
}
