use univsrg::error::ConvertError;
use univsrg::resource::{ResourceEntry, ResourceOut, ResourcePool};

const TEST_FILE_PATH_1: &str = "test_file_1.mp3";
const TEST_FILE_BYTES_1: &[u8] = &[1, 1, 4];
const TEST_FILE_PATH_2: &str = "test_file_2.mp3";
const TEST_FILE_BYTES_2: &[u8] = &[5, 1, 4];

fn new_example_resource_pool() -> ResourcePool {
    let mut resource_pool = ResourcePool::new();
    let test_file_1 = ResourceEntry::new(String::from(TEST_FILE_PATH_1), TEST_FILE_BYTES_1.to_vec());
    let test_file_2 = ResourceEntry::new(String::from(TEST_FILE_PATH_2), TEST_FILE_BYTES_2.to_vec());
    resource_pool.insert(test_file_1);
    resource_pool.insert(test_file_2);
    resource_pool
}

#[test]
fn resource_pool_get_entry_from_path() {
    let resource_pool = new_example_resource_pool();
    let entry_1 = resource_pool.get_entry_from_path(TEST_FILE_PATH_1).unwrap();
    let entry_2 = resource_pool.get_entry_from_path(TEST_FILE_PATH_2).unwrap();
    assert_ne!(entry_1, entry_2);
}

#[test]
fn resource_pool_duplicated_resource() {
    let mut resource_pool = new_example_resource_pool();
    let entry_1 = ResourceEntry::new(String::from("114514"), "114514".as_bytes().to_vec());
    let entry_2 = ResourceEntry::new(String::from("114514"), "114514".as_bytes().to_vec());
    resource_pool.insert(entry_1);
    assert_eq!(resource_pool.insert(entry_2), false);
}

#[test]
fn resource_pool_clear_path() {
    let mut resource_pool = new_example_resource_pool();
    assert!(resource_pool.get_entry_from_path(TEST_FILE_PATH_1).is_some());
    resource_pool.clear_path();
    assert!(resource_pool.get_entry_from_path(TEST_FILE_PATH_1).is_none());
}

#[test]
fn resource_out_inflate() {
    let resource_pool = new_example_resource_pool();
    let mut resource_out = ResourceOut::new();
    resource_out.inflate(true, &resource_pool).unwrap();

    let entry_1 = resource_pool.get_entry_from_path(TEST_FILE_PATH_1).unwrap();
    let entry_2 = resource_pool.get_entry_from_path(TEST_FILE_PATH_2).unwrap();
    assert_eq!(resource_out.get_path_from_entry(&entry_1).unwrap(), TEST_FILE_PATH_1);
    assert_eq!(resource_out.get_path_from_entry(&entry_2).unwrap(), TEST_FILE_PATH_2);
}

#[test]
fn identical_bytes_under_two_paths_are_one_entry() {
    let mut pool = ResourcePool::new();
    let (first, new_1) = pool.insert_bytes(String::from("a/song.mp3"), vec![7, 7, 7]);
    let (second, new_2) = pool.insert_bytes(String::from("b/other.mp3"), vec![7, 7, 7]);
    assert!(new_1);
    assert!(!new_2);
    assert_eq!(pool.entries().len(), 1);
    assert_eq!(second.0.original_path, "a/song.mp3");
    assert_eq!(first, second);
    let by_new_path = pool.get_entry_from_path("b/other.mp3").unwrap();
    assert_eq!(by_new_path.0.original_path, "a/song.mp3");
}

#[test]
fn entry_equality_ignores_the_path() {
    let a = ResourceEntry::new(String::from("x.png"), vec![1, 2, 3]);
    let b = ResourceEntry::new(String::from("y.png"), vec![1, 2, 3]);
    let c = ResourceEntry::new(String::from("x.png"), vec![1, 2]);
    assert_eq!(a, b);
    assert_ne!(a, c);
}

#[test]
fn inflate_into_a_non_empty_directory_fails_and_assigns_nothing() {
    let pool = new_example_resource_pool();
    let mut out = ResourceOut::new();
    assert_eq!(out.inflate(false, &pool), Err(ConvertError::AlreadyExists));
    assert_eq!(out.assigned().len(), 0);
}

#[test]
fn inflate_lengthens_taken_base_names() {
    let mut pool = ResourcePool::new();
    pool.insert_bytes(String::from("bg.jpg"), vec![1]);
    pool.insert_bytes(String::from("bg.jpg"), vec![2]);
    pool.insert_bytes(String::from("bg.jpg"), vec![3]);
    pool.insert_bytes(String::from("sub/.hidden"), vec![4]);
    pool.insert_bytes(String::from("sub/.hidden"), vec![5]);
    pool.insert_bytes(String::from("noext"), vec![6]);
    pool.insert_bytes(String::from("noext"), vec![7]);
    let mut out = ResourceOut::new();
    out.inflate(true, &pool).unwrap();
    let names: Vec<String> = out.assigned().iter().map(|(_, p)| p.clone()).collect();
    assert_eq!(
        names,
        vec!["bg.jpg", "bgc.jpg", "bgcc.jpg", "sub/.hidden", "sub/.hiddenc", "noext", "noextc"]
    );
}

#[test]
fn inflated_paths_hold_the_resources_bytes() {
    let pool = new_example_resource_pool();
    let mut out = ResourceOut::new();
    out.inflate(true, &pool).unwrap();
    for (i, entry) in pool.entries().iter().enumerate() {
        let (held, path) = &out.assigned()[i];
        assert_eq!(held.0.bytes, entry.0.bytes);
        let others = out.assigned().iter().filter(|(_, p)| p == path).count();
        assert_eq!(others, 1);
    }
}
